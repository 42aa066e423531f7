//! What the numbers of the history add up to.

use crate::order::{lex_irreflexive, lex_less, sorted_distinct_exists, text_rank};
use crate::store::history::{
    bytes_sum, cleaned_paths, errors_from, event_count, events_from, failed_since, project_sum, project_sums,
    succeeded_since, top_projects,
};
use crate::store::rows::{ErrorModel, EventModel};
use crate::store::sorting::{is_sorted, orders, sorting_keeps_the_order_of_equals, sorting_puts_in_order};
use crate::store::table::{picked, picked_are_of_rows, stably_sorted};
use crate::store::worktrees::text_set_holds;
use vstd::prelude::*;

verus! {

/// What attempts recovered together: the bytes before each, less the bytes after it.
pub open spec fn recovered(events: Seq<EventModel>) -> int
    decreases events.len(),
{
    if events.len() == 0 {
        0
    } else {
        recovered(events.drop_last()) + events.last().bytes_before - events.last().bytes_after
    }
}

/// What a list of projects adds up to.
pub open spec fn added_up(rows: Seq<(Seq<char>, i64)>) -> int
    decreases rows.len(),
{
    if rows.len() == 0 {
        0
    } else {
        added_up(rows.drop_last()) + rows.last().1
    }
}

proof fn lemma_sum(events: Seq<EventModel>, counted: spec_fn(EventModel) -> bool)
    requires
        bytes_sum(events, counted) is Some,
    ensures
        bytes_sum(events, counted)->0 == recovered(events.filter(counted)),
    decreases events.len(),
{
    if events.len() > 0 {
        let front = events.drop_last();
        lemma_sum(front, counted);
        front.lemma_filter_push(events.last(), counted);
        assert(front.push(events.last()) =~= events);
        let kept = front.filter(counted);
        if counted(events.last()) {
            assert(kept.push(events.last()).drop_last() =~= kept);
        }
    } else {
        events.lemma_filter_len(counted);
        assert(events.filter(counted) =~= Seq::empty());
    }
}

/// The total since a time is what the attempts since then recovered that exited with
/// zero, and no others.
pub proof fn totals_count_successes_since(events: Seq<EventModel>, since: i64)
    requires
        bytes_sum(events, |row: EventModel| succeeded_since(row, since)) is Some,
    ensures
        bytes_sum(events, |row: EventModel| succeeded_since(row, since))->0 == recovered(
            events.filter(|row: EventModel| row.ts >= since && row.exit_code == Some(0i32)),
        ),
{
    let counted = |row: EventModel| succeeded_since(row, since);
    lemma_sum(events, counted);
    let plain = |row: EventModel| row.ts >= since && row.exit_code == Some(0i32);
    lemma_same_filter(events, counted, plain);
}

proof fn lemma_same_filter<V>(rows: Seq<V>, p: spec_fn(V) -> bool, q: spec_fn(V) -> bool)
    requires
        forall|x: V| #[trigger] p(x) == q(x),
    ensures
        rows.filter(p) == rows.filter(q),
    decreases rows.len(),
{
    if rows.len() > 0 {
        let front = rows.drop_last();
        lemma_same_filter(front, p, q);
        front.lemma_filter_push(rows.last(), p);
        front.lemma_filter_push(rows.last(), q);
        assert(front.push(rows.last()) =~= rows);
        assert(p(rows.last()) == q(rows.last()));
    } else {
        rows.lemma_filter_len(p);
        rows.lemma_filter_len(q);
        assert(rows.filter(p) =~= rows.filter(q));
    }
}

/// The attempts since a time to clean a path that succeeded.
pub open spec fn successes_at(events: Seq<EventModel>, since: i64, path: Seq<char>) -> Seq<EventModel> {
    events.filter(|row: EventModel| row.ts >= since && row.exit_code == Some(0i32) && row.path == path)
}

proof fn lemma_project_sums(events: Seq<EventModel>, since: i64, paths: Seq<Seq<char>>)
    requires
        project_sums(events, since, paths) is Some,
    ensures
        project_sums(events, since, paths)->0.len() == paths.len(),
        forall|i: int|
            0 <= i < paths.len() ==> (#[trigger] project_sums(events, since, paths)->0[i]).0 == paths[i]
                && project_sums(events, since, paths)->0[i].1 == recovered(successes_at(events, since, paths[i])),
    decreases paths.len(),
{
    if paths.len() > 0 {
        lemma_project_sums(events, since, paths.drop_last());
        let counted = |row: EventModel| succeeded_since(row, since) && row.path == paths.last();
        let plain = |row: EventModel| row.ts >= since && row.exit_code == Some(0i32) && row.path == paths.last();
        assert(project_sum(events, since, paths.last()) == bytes_sum(events, counted));
        lemma_sum(events, counted);
        lemma_same_filter(events, counted, plain);
        let before = project_sums(events, since, paths.drop_last())->0;
        let all = project_sums(events, since, paths)->0;
        assert forall|i: int| 0 <= i < paths.len() implies (#[trigger] all[i]).0 == paths[i] && all[i].1 == recovered(
            successes_at(events, since, paths[i]),
        ) by {
            if i < before.len() {
                assert(all[i] == before[i]);
                assert(paths.drop_last()[i] == paths[i]);
            }
        }
    }
}

proof fn lemma_cleaned_paths(events: Seq<EventModel>, since: i64)
    ensures
        forall|path: Seq<char>| #[trigger]
            cleaned_paths(events, since).contains(path) <==> exists|i: int|
                0 <= i < events.len() && (#[trigger] events[i]).path == path && events[i].ts >= since && events[i].exit_code
                    == Some(0i32),
        cleaned_paths(events, since).no_duplicates(),
{
    let g = |row: EventModel|
        if succeeded_since(row, since) {
            Some(row.path)
        } else {
            None::<Seq<char>>
        };
    let list = picked(events, g);
    let paths = cleaned_paths(events, since);
    picked_are_of_rows(events, g);
    assert forall|path: Seq<char>| #[trigger] paths.contains(path) <==> exists|i: int|
        0 <= i < events.len() && (#[trigger] events[i]).path == path && events[i].ts >= since && events[i].exit_code
            == Some(0i32) by {
        text_set_holds(list, path);
        if list.contains(path) {
            let k = choose|k: int| 0 <= k < list.len() && list[k] == path;
            let i = choose|i: int| 0 <= i < events.len() && g(#[trigger] events[i]) == Some(list[k]);
            assert(events[i].path == path);
        }
        if exists|i: int|
            0 <= i < events.len() && (#[trigger] events[i]).path == path && events[i].ts >= since && events[i].exit_code
                == Some(0i32) {
            let i = choose|i: int|
                0 <= i < events.len() && (#[trigger] events[i]).path == path && events[i].ts >= since
                    && events[i].exit_code == Some(0i32);
            assert(g(events[i]) == Some(path));
            assert(list.contains(path));
        }
    }
    let rank = |text: Seq<char>| text_rank(text);
    sorted_distinct_exists(list, rank);
    assert forall|i: int, j: int| 0 <= i < j < paths.len() implies paths[i] != paths[j] by {
        assert(lex_less(rank(paths[i]), rank(paths[j])));
        lex_irreflexive(rank(paths[i]));
    }
}

/// Whether a path has an attempt since a time that succeeded.
pub open spec fn has_success(events: Seq<EventModel>, since: i64, path: Seq<char>) -> bool {
    exists|k: int|
        0 <= k < events.len() && (#[trigger] events[k]).path == path && events[k].ts >= since && events[k].exit_code == Some(
            0i32,
        )
}

proof fn lemma_ranked(events: Seq<EventModel>, since: i64) -> (sorted: Seq<(Seq<char>, i64)>)
    requires
        project_sums(events, since, cleaned_paths(events, since)) is Some,
    ensures
        sorted == stably_sorted(
            project_sums(events, since, cleaned_paths(events, since))->0,
            |a: (Seq<char>, i64), b: (Seq<char>, i64)| a.1 > b.1,
        ),
        forall|i: int|
            0 <= i < sorted.len() ==> (#[trigger] sorted[i]).1 == recovered(successes_at(events, since, sorted[i].0))
                && has_success(events, since, sorted[i].0),
        forall|i: int, j: int|
            0 <= i < j < sorted.len() ==> (#[trigger] sorted[i]).0 != (#[trigger] sorted[j]).0 && sorted[i].1 >= sorted[j].1,
        forall|path: Seq<char>| #[trigger]
            has_success(events, since, path) ==> exists|i: int| 0 <= i < sorted.len() && (#[trigger] sorted[i]).0 == path,
{
    let paths = cleaned_paths(events, since);
    let sums = project_sums(events, since, paths)->0;
    let less = |a: (Seq<char>, i64), b: (Seq<char>, i64)| a.1 > b.1;
    let sorted = stably_sorted(sums, less);
    lemma_project_sums(events, since, paths);
    lemma_cleaned_paths(events, since);
    assert(orders(less));
    sorting_puts_in_order(sums, less);
    assert(sums.no_duplicates()) by {
        assert forall|i: int, j: int| 0 <= i < j < sums.len() implies sums[i] != sums[j] by {
            assert(paths[i] != paths[j]);
            assert(sums[i].0 == paths[i] && sums[j].0 == paths[j]);
        }
    }
    lemma_sorted_once(sums, sorted);
    assert forall|i: int| 0 <= i < sorted.len() implies (#[trigger] sorted[i]).1 == recovered(
        successes_at(events, since, sorted[i].0),
    ) && has_success(events, since, sorted[i].0) by {
        assert(sorted.contains(sorted[i]));
        assert(sums.contains(sorted[i]));
        let k = choose|k: int| 0 <= k < sums.len() && sums[k] == sorted[i];
        assert(sums[k].0 == paths[k]);
        assert(paths.contains(paths[k]));
    }
    assert forall|i: int, j: int| 0 <= i < j < sorted.len() implies (#[trigger] sorted[i]).0 != (#[trigger] sorted[j]).0
        && sorted[i].1 >= sorted[j].1 by {
        assert(!less(sorted[j], sorted[i]));
        assert(sorted.contains(sorted[i]) && sorted.contains(sorted[j]));
        assert(sums.contains(sorted[i]) && sums.contains(sorted[j]));
        let a = choose|k: int| 0 <= k < sums.len() && sums[k] == sorted[i];
        let b = choose|k: int| 0 <= k < sums.len() && sums[k] == sorted[j];
        assert(sums[a].0 == paths[a] && sums[b].0 == paths[b]);
        assert(sorted[i] != sorted[j]);
        if paths[a] == paths[b] {
            assert(a == b);
        }
    }
    assert forall|path: Seq<char>| #[trigger] has_success(events, since, path) implies exists|i: int|
        0 <= i < sorted.len() && (#[trigger] sorted[i]).0 == path by {
        assert(paths.contains(path));
        let p = choose|p: int| 0 <= p < paths.len() && paths[p] == path;
        assert(sums[p].0 == path);
        assert(sorted.contains(sums[p]));
        let j = choose|j: int| 0 <= j < sorted.len() && sorted[j] == sums[p];
        assert(sorted[j].0 == path);
    }
    sorted
}

/// Each row of the top projects since a time has for its bytes what the successful
/// attempts at its path since then recovered, and no others; its path has such an
/// attempt; no path stands twice; the most stand first; no more rows are given than
/// were asked for; and a path that is left out recovered no more than any that is not.
pub proof fn top_projects_count_successes_since(events: Seq<EventModel>, since: i64, n: nat)
    requires
        top_projects(events, since, n) is Some,
    ensures
        top_projects(events, since, n)->0.len() <= n,
        forall|i: int|
            0 <= i < top_projects(events, since, n)->0.len() ==> (#[trigger] top_projects(events, since, n)->0[i]).1
                == recovered(successes_at(events, since, top_projects(events, since, n)->0[i].0)) && has_success(
                events,
                since,
                top_projects(events, since, n)->0[i].0,
            ),
        forall|i: int, j: int|
            0 <= i < j < top_projects(events, since, n)->0.len() ==> (#[trigger] top_projects(events, since, n)->0[i]).0 != (
            #[trigger] top_projects(events, since, n)->0[j]).0 && top_projects(events, since, n)->0[i].1 >= top_projects(
                events,
                since,
                n,
            )->0[j].1,
        forall|path: Seq<char>, i: int| #![trigger has_success(events, since, path), top_projects(events, since, n)->0[i]]
            has_success(events, since, path) && 0 <= i < top_projects(events, since, n)->0.len() ==> (exists|j: int|
                0 <= j < top_projects(events, since, n)->0.len() && (#[trigger] top_projects(events, since, n)->0[j]).0
                    == path) || top_projects(events, since, n)->0[i].1 >= recovered(successes_at(events, since, path)),
        n > 0 ==> forall|path: Seq<char>| #[trigger]
            has_success(events, since, path) ==> top_projects(events, since, n)->0.len() > 0,
        top_projects(events, since, n)->0.len() < n ==> forall|path: Seq<char>| #[trigger]
            has_success(events, since, path) ==> exists|j: int|
                0 <= j < top_projects(events, since, n)->0.len() && (#[trigger] top_projects(events, since, n)->0[j]).0
                    == path,
{
    let sorted = lemma_ranked(events, since);
    let rows = top_projects(events, since, n)->0;
    assert forall|path: Seq<char>, i: int| #![trigger has_success(events, since, path), rows[i]]
        has_success(events, since, path) && 0 <= i < rows.len() implies (exists|j: int|
        0 <= j < rows.len() && (#[trigger] rows[j]).0 == path) || rows[i].1 >= recovered(
        successes_at(events, since, path),
    ) by {
        let j = choose|j: int| 0 <= j < sorted.len() && (#[trigger] sorted[j]).0 == path;
        assert(rows[i] == sorted[i]);
        if j < rows.len() {
            assert(rows[j].0 == path);
        } else {
            assert(sorted[i].1 >= sorted[j].1);
        }
    }
    assert forall|path: Seq<char>| #[trigger] has_success(events, since, path) && rows.len() < n implies exists|j: int|
        0 <= j < rows.len() && (#[trigger] rows[j]).0 == path by {
        let j = choose|j: int| 0 <= j < sorted.len() && (#[trigger] sorted[j]).0 == path;
        assert(rows[j].0 == path);
    }
    if n > 0 {
        assert forall|path: Seq<char>| #[trigger] has_success(events, since, path) implies rows.len() > 0 by {
            let j = choose|j: int| 0 <= j < sorted.len() && (#[trigger] sorted[j]).0 == path;
            assert(sorted.len() > 0);
        }
    }
}

proof fn lemma_sorted_once<V>(a: Seq<V>, b: Seq<V>)
    requires
        a.no_duplicates(),
        a.to_multiset() == b.to_multiset(),
    ensures
        b.no_duplicates(),
{
    a.lemma_multiset_has_no_duplicates();
    assert forall|x: V| b.to_multiset().contains(x) implies b.to_multiset().count(x) == 1 by {}
    b.lemma_multiset_has_no_duplicates_conv();
}

/// Where as many rows are asked for as there are paths, the top projects since a time
/// add up to the total since then.
pub proof fn top_projects_add_up_to_the_total(events: Seq<EventModel>, since: i64, n: nat)
    requires
        top_projects(events, since, n) is Some,
        bytes_sum(events, |row: EventModel| succeeded_since(row, since)) is Some,
        cleaned_paths(events, since).len() <= n,
    ensures
        added_up(top_projects(events, since, n)->0) == bytes_sum(
            events,
            |row: EventModel| succeeded_since(row, since),
        )->0,
{
    let paths = cleaned_paths(events, since);
    let sums = project_sums(events, since, paths)->0;
    let less = |a: (Seq<char>, i64), b: (Seq<char>, i64)| a.1 > b.1;
    let sorted = stably_sorted(sums, less);
    lemma_project_sums(events, since, paths);
    lemma_cleaned_paths(events, since);
    assert(orders(less));
    sorting_puts_in_order(sums, less);
    lemma_same_total(sums, sorted);
    totals_count_successes_since(events, since);
    let successes = events.filter(|row: EventModel| row.ts >= since && row.exit_code == Some(0i32));
    assert forall|i: int| 0 <= i < successes.len() implies paths.contains((#[trigger] successes[i]).path) by {
        let p = |row: EventModel| row.ts >= since && row.exit_code == Some(0i32);
        events.lemma_filter_pred(p, i);
        events.lemma_filter_contains_rev(p, successes[i]);
        let k = choose|k: int| 0 <= k < events.len() && events[k] == successes[i];
        assert(events[k].path == successes[i].path);
    }
    lemma_parts_add_up(events, since, successes, paths, sums);
}

/// The bytes that attempts at one of these paths recovered.
spec fn recovered_at(successes: Seq<EventModel>, paths: Seq<Seq<char>>) -> int
    decreases successes.len(),
{
    if successes.len() == 0 {
        0
    } else {
        recovered_at(successes.drop_last(), paths) + if paths.contains(successes.last().path) {
            successes.last().bytes_before - successes.last().bytes_after
        } else {
            0int
        }
    }
}

proof fn lemma_recovered_all(successes: Seq<EventModel>, paths: Seq<Seq<char>>)
    requires
        forall|i: int| 0 <= i < successes.len() ==> paths.contains((#[trigger] successes[i]).path),
    ensures
        recovered_at(successes, paths) == recovered(successes),
    decreases successes.len(),
{
    if successes.len() > 0 {
        let front = successes.drop_last();
        assert forall|i: int| 0 <= i < front.len() implies paths.contains((#[trigger] front[i]).path) by {
            assert(front[i] == successes[i]);
        }
        lemma_recovered_all(front, paths);
        assert(paths.contains(successes[successes.len() - 1].path));
    }
}

proof fn lemma_recovered_none(successes: Seq<EventModel>)
    ensures
        recovered_at(successes, seq![]) == 0,
    decreases successes.len(),
{
    if successes.len() > 0 {
        lemma_recovered_none(successes.drop_last());
    }
}

proof fn lemma_one_more_path(successes: Seq<EventModel>, paths: Seq<Seq<char>>, path: Seq<char>)
    requires
        !paths.contains(path),
    ensures
        recovered_at(successes, paths.push(path)) == recovered_at(successes, paths) + recovered(
            successes.filter(|row: EventModel| row.path == path),
        ),
    decreases successes.len(),
{
    let own = |row: EventModel| row.path == path;
    if successes.len() > 0 {
        let front = successes.drop_last();
        let last = successes.last();
        lemma_one_more_path(front, paths, path);
        front.lemma_filter_push(last, own);
        assert(front.push(last) =~= successes);
        let kept = front.filter(own);
        let more = paths.push(path);
        if own(last) {
            assert(kept.push(last).drop_last() =~= kept);
            assert(more[paths.len() as int] == path);
        }
        assert(more.contains(last.path) <==> paths.contains(last.path) || last.path == path) by {
            if paths.contains(last.path) {
                let k = choose|k: int| 0 <= k < paths.len() && paths[k] == last.path;
                assert(more[k] == last.path);
            }
            if more.contains(last.path) && last.path != path {
                let k = choose|k: int| 0 <= k < more.len() && more[k] == last.path;
                assert(paths[k] == last.path);
            }
        }
    } else {
        successes.lemma_filter_len(own);
        assert(successes.filter(own) =~= Seq::empty());
    }
}

proof fn lemma_filter_twice<V>(rows: Seq<V>, p: spec_fn(V) -> bool, q: spec_fn(V) -> bool)
    ensures
        rows.filter(p).filter(q) == rows.filter(|x: V| p(x) && q(x)),
    decreases rows.len(),
{
    let both = |x: V| p(x) && q(x);
    if rows.len() > 0 {
        let front = rows.drop_last();
        lemma_filter_twice(front, p, q);
        front.lemma_filter_push(rows.last(), p);
        front.lemma_filter_push(rows.last(), both);
        front.filter(p).lemma_filter_push(rows.last(), q);
        assert(front.push(rows.last()) =~= rows);
    } else {
        rows.lemma_filter_len(p);
        rows.lemma_filter_len(both);
        rows.filter(p).lemma_filter_len(q);
        assert(rows.filter(p).filter(q) =~= rows.filter(both));
    }
}

proof fn lemma_prefix_adds_up(
    events: Seq<EventModel>,
    since: i64,
    successes: Seq<EventModel>,
    paths: Seq<Seq<char>>,
    sums: Seq<(Seq<char>, i64)>,
    n: int,
)
    requires
        successes == events.filter(|row: EventModel| row.ts >= since && row.exit_code == Some(0i32)),
        paths.no_duplicates(),
        sums.len() == paths.len(),
        forall|i: int|
            0 <= i < paths.len() ==> (#[trigger] sums[i]).1 == recovered(successes_at(events, since, paths[i])),
        0 <= n <= paths.len(),
    ensures
        added_up(sums.take(n)) == recovered_at(successes, paths.take(n)),
    decreases n,
{
    if n > 0 {
        lemma_prefix_adds_up(events, since, successes, paths, sums, n - 1);
        let path = paths[n - 1];
        let before = paths.take(n - 1);
        assert(paths.take(n) =~= before.push(path));
        assert(sums.take(n).drop_last() =~= sums.take(n - 1));
        assert(!before.contains(path)) by {
            if before.contains(path) {
                let k = choose|k: int| 0 <= k < before.len() && before[k] == path;
                assert(paths[k] == paths[n - 1]);
            }
        }
        lemma_one_more_path(successes, before, path);
        let p = |row: EventModel| row.ts >= since && row.exit_code == Some(0i32);
        let q = |row: EventModel| row.path == path;
        lemma_filter_twice(events, p, q);
        let both = |row: EventModel| p(row) && q(row);
        let plain = |row: EventModel| row.ts >= since && row.exit_code == Some(0i32) && row.path == path;
        lemma_same_filter(events, both, plain);
        assert(successes.filter(q) == successes_at(events, since, path));
        assert(sums[n - 1].1 == recovered(successes_at(events, since, paths[n - 1])));
    } else {
        assert(paths.take(0) =~= seq![]);
        lemma_recovered_none(successes);
    }
}

proof fn lemma_parts_add_up(
    events: Seq<EventModel>,
    since: i64,
    successes: Seq<EventModel>,
    paths: Seq<Seq<char>>,
    sums: Seq<(Seq<char>, i64)>,
)
    requires
        successes == events.filter(|row: EventModel| row.ts >= since && row.exit_code == Some(0i32)),
        paths.no_duplicates(),
        sums.len() == paths.len(),
        forall|i: int|
            0 <= i < paths.len() ==> (#[trigger] sums[i]).1 == recovered(successes_at(events, since, paths[i])),
        forall|i: int| 0 <= i < successes.len() ==> paths.contains((#[trigger] successes[i]).path),
    ensures
        added_up(sums) == recovered(successes),
{
    lemma_prefix_adds_up(events, since, successes, paths, sums, paths.len() as int);
    assert(paths.take(paths.len() as int) =~= paths);
    assert(sums.take(paths.len() as int) =~= sums);
    lemma_recovered_all(successes, paths);
}

proof fn lemma_removed_total(rows: Seq<(Seq<char>, i64)>, k: int)
    requires
        0 <= k < rows.len(),
    ensures
        added_up(rows) == added_up(rows.remove(k)) + rows[k].1,
    decreases rows.len(),
{
    if k < rows.len() - 1 {
        let front = rows.drop_last();
        lemma_removed_total(front, k);
        assert(rows.remove(k).drop_last() =~= front.remove(k));
        assert(rows.remove(k).last() == rows.last());
    } else {
        assert(rows.remove(k) =~= rows.drop_last());
    }
}

proof fn lemma_same_total(a: Seq<(Seq<char>, i64)>, b: Seq<(Seq<char>, i64)>)
    requires
        a.to_multiset() == b.to_multiset(),
    ensures
        added_up(a) == added_up(b),
    decreases a.len(),
{
    broadcast use vstd::seq_lib::group_to_multiset_ensures;

    assert(a.len() == a.to_multiset().len());
    assert(b.len() == b.to_multiset().len());
    if a.len() > 0 {
        let last = a.last();
        assert(a.contains(last));
        assert(a.to_multiset().count(last) > 0);
        assert(b.contains(last));
        let k = choose|k: int| 0 <= k < b.len() && b[k] == last;
        assert(b.remove(k).to_multiset() =~= b.to_multiset().remove(last));
        assert(a =~= a.drop_last().push(last));
        assert(a.drop_last().to_multiset() =~= a.to_multiset().remove(last));
        lemma_same_total(a.drop_last(), b.remove(k));
        lemma_removed_total(b, k);
    }
}

/// An attempt before the time, or one that did not exit with zero, changes neither the
/// total nor the top projects; a failed attempt since the time is counted once as one.
pub proof fn other_attempts_do_not_count(events: Seq<EventModel>, since: i64, n: nat, other: EventModel)
    requires
        other.ts < since || other.exit_code != Some(0i32),
    ensures
        bytes_sum(events.push(other), |row: EventModel| succeeded_since(row, since)) == bytes_sum(
            events,
            |row: EventModel| succeeded_since(row, since),
        ),
        event_count(events.push(other), |row: EventModel| failed_since(row, since)) == event_count(
            events,
            |row: EventModel| failed_since(row, since),
        ) + if other.ts >= since && other.exit_code is Some {
            1int
        } else {
            0int
        },
{
    let counted = |row: EventModel| succeeded_since(row, since);
    let failed = |row: EventModel| failed_since(row, since);
    let more = events.push(other);
    assert(more.drop_last() =~= events);
    assert(bytes_sum(more, counted) == bytes_sum(events, counted));
    events.lemma_filter_push(other, failed);
}

/// The attempts since a time are exactly those that are no older, in the order of
/// their times; those of one time stay in the order in which they were recorded.
pub proof fn attempts_since_are_in_order(events: Seq<EventModel>, since: i64, at: i64)
    ensures
        forall|row: EventModel| #[trigger]
            events_from(events, since).contains(row) <==> events.contains(row) && row.ts >= since,
        forall|i: int, j: int|
            0 <= i < j < events_from(events, since).len() ==> (#[trigger] events_from(events, since)[i]).ts <= (
            #[trigger] events_from(events, since)[j]).ts,
        at >= since ==> events_from(events, since).filter(|row: EventModel| row.ts == at) == events.filter(
            |row: EventModel| row.ts == at,
        ),
{
    let p = |row: EventModel| row.ts >= since;
    let less = |a: EventModel, b: EventModel| a.ts < b.ts;
    let kept = events.filter(p);
    crate::store::sorting::chosen_rows_have_the_property(events, p);
    assert(orders(less));
    sorting_puts_in_order(kept, less);
    let sorted = events_from(events, since);
    assert(is_sorted(sorted, less));
    assert forall|row: EventModel| #[trigger] sorted.contains(row) <==> events.contains(row) && row.ts >= since by {
        assert(sorted.contains(row) <==> kept.contains(row));
    }
    assert forall|i: int, j: int| 0 <= i < j < sorted.len() implies (#[trigger] sorted[i]).ts <= (#[trigger] sorted[j]).ts by {
        assert(!less(sorted[j], sorted[i]));
    }
    if at >= since {
        let alike = |row: EventModel| row.ts == at;
        sorting_keeps_the_order_of_equals(kept, less, alike);
        lemma_filter_twice(events, p, alike);
        let both = |row: EventModel| p(row) && alike(row);
        lemma_same_filter(events, both, alike);
    }
}

/// The errors since a time are exactly those that are no older, in the order of their
/// times; those of one time stay in the order in which they were recorded.
pub proof fn errors_since_are_in_order(errors: Seq<ErrorModel>, since: i64, at: i64)
    ensures
        forall|row: ErrorModel| #[trigger]
            errors_from(errors, since).contains(row) <==> errors.contains(row) && row.ts >= since,
        forall|i: int, j: int|
            0 <= i < j < errors_from(errors, since).len() ==> (#[trigger] errors_from(errors, since)[i]).ts <= (
            #[trigger] errors_from(errors, since)[j]).ts,
        at >= since ==> errors_from(errors, since).filter(|row: ErrorModel| row.ts == at) == errors.filter(
            |row: ErrorModel| row.ts == at,
        ),
{
    let p = |row: ErrorModel| row.ts >= since;
    let less = |a: ErrorModel, b: ErrorModel| a.ts < b.ts;
    let kept = errors.filter(p);
    crate::store::sorting::chosen_rows_have_the_property(errors, p);
    assert(orders(less));
    sorting_puts_in_order(kept, less);
    let sorted = errors_from(errors, since);
    assert(is_sorted(sorted, less));
    assert forall|row: ErrorModel| #[trigger] sorted.contains(row) <==> errors.contains(row) && row.ts >= since by {
        assert(sorted.contains(row) <==> kept.contains(row));
    }
    assert forall|i: int, j: int| 0 <= i < j < sorted.len() implies (#[trigger] sorted[i]).ts <= (#[trigger] sorted[j]).ts by {
        assert(!less(sorted[j], sorted[i]));
    }
    if at >= since {
        let alike = |row: ErrorModel| row.ts == at;
        sorting_keeps_the_order_of_equals(kept, less, alike);
        lemma_filter_twice(errors, p, alike);
        let both = |row: ErrorModel| p(row) && alike(row);
        lemma_same_filter(errors, both, alike);
    }
}

} // verus!
