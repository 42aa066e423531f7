//! What the store keeps of a discovery, of the projects and of the schedule.

use crate::identity::ReviewedIdentity;
use crate::order::{lex_irreflexive, lex_less, lex_total, lex_transitive, text_rank};
use crate::store::generations::{
    actionable, current_generation_of, generation_incomplete, generation_stored, may_act_on, observation_before,
    observation_stored, observations_reverified, observations_stored, origin_stored, origins_of, origins_stored,
};
use crate::store::plans::newest_generation;
use crate::store::projects::{
    project_cleaned, project_observed, project_renamed, project_seen, without_project,
};
use crate::store::rows::{
    optional_text, GenerationModel, GenerationReconciliation, ObservationModel, ObservationReconciliation, OriginModel, OriginReconciliation,
    ProjectModel, SchedulerRow,
};
use crate::store::scheduler::{forced, retry_cleared, scheduled, with_scheduler};
use crate::store::sorting::{chosen_rows_have_the_property, orders, sorting_puts_in_order};
use crate::store::StoreModel;
use vstd::prelude::*;
use vstd::utf8::*;

verus! {

// ----------------------------------------------------------------- generations

/// The newest generation is one of the generations, and none has a greater number.
pub proof fn newest_generation_is_the_greatest(rows: Seq<GenerationModel>)
    ensures
        newest_generation(rows) is None <==> rows.len() == 0,
        newest_generation(rows) matches Some(newest) ==> rows.contains(newest) && forall|i: int|
            0 <= i < rows.len() ==> (#[trigger] rows[i]).id <= newest.id,
    decreases rows.len(),
{
    if rows.len() > 0 {
        let front = rows.drop_last();
        newest_generation_is_the_greatest(front);
        let newest = newest_generation(rows)->0;
        assert(rows[rows.len() - 1] == rows.last());
        if newest != rows.last() {
            let k = choose|k: int| 0 <= k < front.len() && front[k] == newest;
            assert(rows[k] == newest);
        }
        assert forall|i: int| 0 <= i < rows.len() implies (#[trigger] rows[i]).id <= newest.id by {
            if i < front.len() {
                assert(front[i] == rows[i]);
            }
        }
    }
}

/// Whether a generation may still be acted on: it is on record as valid, and none has a
/// greater number.
pub open spec fn is_in_force(rows: Seq<GenerationModel>, id: i64) -> bool {
    &&& exists|i: int| 0 <= i < rows.len() && (#[trigger] rows[i]).id == id && rows[i].authority_valid
    &&& forall|i: int| 0 <= i < rows.len() ==> (#[trigger] rows[i]).id <= id
}

/// What may be acted on under a generation is exactly what was observed in it with
/// authority, by an origin of it that was read to the end, while the generation is the
/// newest and still valid; in the order of the paths.
pub proof fn observations_to_act_on(store: StoreModel, generation_id: i64)
    ensures
        forall|row: ObservationModel| #[trigger]
            actionable(store, generation_id).contains(row) <==> {
                &&& store.project_observations.contains(row)
                &&& row.generation_id == generation_id
                &&& row.authorized
                &&& is_in_force(store.discovery_generations, generation_id)
                &&& exists|k: int|
                    0 <= k < store.discovery_origins.len() && (#[trigger] store.discovery_origins[k]).id == row.origin_id
                        && store.discovery_origins[k].generation_id == row.generation_id
                        && store.discovery_origins[k].completed
            },
        forall|i: int, j: int| #![trigger actionable(store, generation_id)[i], actionable(store, generation_id)[j]]
            0 <= i < j < actionable(store, generation_id).len() ==> !lex_less(
                text_rank(actionable(store, generation_id)[j].project_path),
                text_rank(actionable(store, generation_id)[i].project_path),
            ),
{
    let p = |row: ObservationModel| may_act_on(store, generation_id, row);
    let less = |a: ObservationModel, b: ObservationModel| observation_before(a, b);
    let chosen = store.project_observations.filter(p);
    let list = actionable(store, generation_id);
    lemma_observations_ordered();
    sorting_puts_in_order(chosen, less);
    chosen_rows_have_the_property(store.project_observations, p);
    newest_generation_is_the_greatest(store.discovery_generations);
    assert forall|row: ObservationModel| #[trigger] list.contains(row) <==> {
        &&& store.project_observations.contains(row)
        &&& row.generation_id == generation_id
        &&& row.authorized
        &&& is_in_force(store.discovery_generations, generation_id)
        &&& exists|k: int|
            0 <= k < store.discovery_origins.len() && (#[trigger] store.discovery_origins[k]).id == row.origin_id
                && store.discovery_origins[k].generation_id == row.generation_id && store.discovery_origins[k].completed
    } by {
        assert(list.contains(row) <==> chosen.contains(row));
        lemma_in_force(store.discovery_generations, generation_id);
    }
    assert forall|i: int, j: int| #![trigger list[i], list[j]] 0 <= i < j < list.len() implies !lex_less(
        text_rank(list[j].project_path),
        text_rank(list[i].project_path),
    ) by {
        assert(!less(list[j], list[i]));
    }
}

proof fn lemma_in_force(rows: Seq<GenerationModel>, id: i64)
    ensures
        crate::store::generations::is_valid_newest(rows, id) <==> is_in_force(rows, id),
{
    newest_generation_is_the_greatest(rows);
    if is_in_force(rows, id) {
        let i = choose|i: int| 0 <= i < rows.len() && (#[trigger] rows[i]).id == id && rows[i].authority_valid;
        let newest = newest_generation(rows)->0;
        let k = choose|k: int| 0 <= k < rows.len() && rows[k] == newest;
        assert(rows[k].id <= id);
        assert(rows[i].id <= newest.id);
        let valid = |row: GenerationModel| row.id == id && row.authority_valid;
        assert(valid(rows[i]));
    }
    if crate::store::generations::is_valid_newest(rows, id) {
        let valid = |row: GenerationModel| row.id == id && row.authority_valid;
        let i = choose|i: int| 0 <= i < rows.len() && valid(#[trigger] rows[i]);
        assert(rows[i].id == id && rows[i].authority_valid);
    }
}

proof fn lemma_observations_ordered()
    ensures
        orders(|a: ObservationModel, b: ObservationModel| observation_before(a, b)),
{
    let less = |a: ObservationModel, b: ObservationModel| observation_before(a, b);
    assert forall|a: ObservationModel, b: ObservationModel| !(#[trigger] less(a, b) && less(b, a)) by {
        let (x, y) = (text_rank(a.project_path), text_rank(b.project_path));
        if lex_less(x, y) && lex_less(y, x) {
            lex_transitive(x, y, x);
            lex_irreflexive(x);
        }
    }
    assert forall|a: ObservationModel, b: ObservationModel, c: ObservationModel| #![trigger less(a, b), less(b, c)]
        less(a, b) && less(b, c) implies less(a, c) by {
        lemma_ranks(text_rank(a.project_path), text_rank(b.project_path), text_rank(c.project_path));
    }
    assert forall|a: ObservationModel, b: ObservationModel, c: ObservationModel| #![trigger less(a, b), less(b, c)]
        !less(a, b) && !less(b, c) implies !less(a, c) by {
        lemma_ranks(text_rank(a.project_path), text_rank(b.project_path), text_rank(c.project_path));
    }
}

proof fn lemma_ranks(x: Seq<i16>, y: Seq<i16>, z: Seq<i16>)
    ensures
        lex_less(x, y) && lex_less(y, z) ==> lex_less(x, z),
        lex_less(z, y) && lex_less(y, x) ==> lex_less(z, x),
        lex_less(x, y) ==> !lex_less(y, x),
        lex_less(y, z) ==> !lex_less(z, y),
        lex_less(x, z) ==> !lex_less(z, x),
        lex_less(x, y) || lex_less(y, x) || x == y,
        lex_less(y, z) || lex_less(z, y) || y == z,
        lex_less(x, z) || lex_less(z, x) || x == z,
{
    lex_total(x, y);
    lex_total(y, z);
    lex_total(x, z);
    lex_irreflexive(x);
    lex_irreflexive(y);
    lex_irreflexive(z);
    if lex_less(x, y) && lex_less(y, z) {
        lex_transitive(x, y, z);
    }
    if lex_less(z, y) && lex_less(y, x) {
        lex_transitive(z, y, x);
    }
    if lex_less(x, y) && lex_less(y, x) {
        lex_transitive(x, y, x);
    }
    if lex_less(y, z) && lex_less(z, y) {
        lex_transitive(y, z, y);
    }
    if lex_less(x, z) && lex_less(z, x) {
        lex_transitive(x, z, x);
    }
}

/// A discovery is incomplete exactly if there is no valid newest generation for the
/// policy, or an origin of that generation was not read to the end.
pub proof fn discoveries_are_complete_if_every_origin_is(store: StoreModel, policy_hash: Seq<char>)
    ensures
        match newest_generation(store.discovery_generations) {
            None => generation_incomplete(store, policy_hash),
            Some(newest) => generation_incomplete(store, policy_hash) <==> !newest.authority_valid || newest.policy_hash
                != policy_hash || exists|i: int|
                0 <= i < store.discovery_origins.len() && (#[trigger] store.discovery_origins[i]).generation_id == newest.id
                    && !store.discovery_origins[i].completed,
        },
        current_generation_of(store.discovery_generations, policy_hash) matches Some(current) ==> current.authority_valid
            && current.policy_hash == policy_hash && forall|i: int|
            0 <= i < store.discovery_generations.len() ==> (#[trigger] store.discovery_generations[i]).id <= current.id,
{
    newest_generation_is_the_greatest(store.discovery_generations);
    if let Some(newest) = newest_generation(store.discovery_generations) {
        let p = |row: OriginModel| row.generation_id == newest.id && !row.completed;
        if newest.authority_valid && newest.policy_hash == policy_hash {
            if generation_incomplete(store, policy_hash) {
                let i = choose|i: int| 0 <= i < store.discovery_origins.len() && p(#[trigger] store.discovery_origins[i]);
                assert(store.discovery_origins[i].generation_id == newest.id);
            }
            if exists|i: int|
                0 <= i < store.discovery_origins.len() && (#[trigger] store.discovery_origins[i]).generation_id == newest.id
                    && !store.discovery_origins[i].completed {
                let i = choose|i: int|
                    0 <= i < store.discovery_origins.len() && (#[trigger] store.discovery_origins[i]).generation_id == newest.id
                        && !store.discovery_origins[i].completed;
                assert(p(store.discovery_origins[i]));
            }
        }
    }
}

/// The origins of a generation are those on record for it, in the order in which they
/// were stored.
pub proof fn origins_belong_to_their_generation(store: StoreModel, generation_id: i64)
    ensures
        forall|row: OriginModel| #[trigger]
            origins_of(store, generation_id).contains(row) <==> store.discovery_origins.contains(row) && row.generation_id
                == generation_id,
        forall|i: int, j: int| #![trigger origins_of(store, generation_id)[i], origins_of(store, generation_id)[j]]
            0 <= i < j < origins_of(store, generation_id).len() ==> origins_of(store, generation_id)[i].id <= origins_of(
                store,
                generation_id,
            )[j].id,
{
    let p = |row: OriginModel| row.generation_id == generation_id;
    let less = |a: OriginModel, b: OriginModel| a.id < b.id;
    assert(orders(less));
    let chosen = store.discovery_origins.filter(p);
    let list = origins_of(store, generation_id);
    sorting_puts_in_order(chosen, less);
    chosen_rows_have_the_property(store.discovery_origins, p);
    assert forall|row: OriginModel| #[trigger] list.contains(row) <==> store.discovery_origins.contains(row)
        && row.generation_id == generation_id by {
        assert(list.contains(row) <==> chosen.contains(row));
    }
    assert forall|i: int, j: int| #![trigger list[i], list[j]] 0 <= i < j < list.len() implies list[i].id <= list[j].id by {
        assert(!less(list[j], list[i]));
    }
}

// ------------------------------------------------------------ storing a discovery

/// Whether a row is what a store keeps of an observation: the same project, with
/// authority only if the origin was read to the end and the observation itself has it.
pub open spec fn keeps(
    row: ObservationModel,
    generation_id: i64,
    origin_id: i64,
    session: Option<String>,
    origin: OriginReconciliation,
    observation: ObservationReconciliation,
) -> bool {
    &&& row.generation_id == generation_id
    &&& row.origin_id == origin_id
    &&& row.project_path == decode_utf8(observation.project_path@)
    &&& row.project_identity == observation.project_identity@
    &&& match observation.target_identity {
        Some(target) => row.target_identity == Some(target@),
        None => row.target_identity is None,
    }
    &&& row.authorized == (origin.completed && observation.authorized)
    &&& row.boot_session_id == optional_text(session)
    &&& origin.completed || observation.blocked_reason is Some ==> row.blocked_reason == optional_text(
        observation.blocked_reason,
    )
    &&& !origin.completed && observation.blocked_reason is None ==> row.blocked_reason == Some(
        match origin.error {
            Some(error) => "origin incomplete: "@ + error@,
            None => "origin incomplete"@,
        },
    )
}

proof fn lemma_observations(
    store: StoreModel,
    generation_id: i64,
    origin_id: i64,
    session: Option<String>,
    origin: OriginReconciliation,
    observations: Seq<ObservationReconciliation>,
)
    requires
        observations_stored(store, generation_id, origin_id, session, origin, observations) is Ok,
    ensures
        ({
            let after = observations_stored(store, generation_id, origin_id, session, origin, observations)->Ok_0;
            let n = store.project_observations.len();
            &&& after.project_observations.len() == n + observations.len()
            &&& forall|i: int| 0 <= i < n ==> after.project_observations[i] == #[trigger] store.project_observations[i]
            &&& forall|k: int|
                0 <= k < observations.len() ==> keeps(
                    after.project_observations[n + k],
                    generation_id,
                    origin_id,
                    session,
                    origin,
                    #[trigger] observations[k],
                )
            &&& after.discovery_origins == store.discovery_origins
            &&& after.discovery_generations == store.discovery_generations
            &&& after.next_origin_id == store.next_origin_id
            &&& after.worktree_discovery_failures == store.worktree_discovery_failures
            &&& after.linked_worktrees == store.linked_worktrees
        }),
    decreases observations.len(),
{
    if observations.len() > 0 {
        let front = observations.drop_last();
        lemma_observations(store, generation_id, origin_id, session, origin, front);
        let before = observations_stored(store, generation_id, origin_id, session, origin, front)->Ok_0;
        let after = observations_stored(store, generation_id, origin_id, session, origin, observations)->Ok_0;
        let n = store.project_observations.len();
        assert forall|k: int| 0 <= k < observations.len() implies keeps(
            after.project_observations[n + k],
            generation_id,
            origin_id,
            session,
            origin,
            #[trigger] observations[k],
        ) by {
            if k < front.len() {
                assert(front[k] == observations[k]);
                assert(after.project_observations[n + k] == before.project_observations[n + k]);
            } else {
                assert(after.project_observations[n + k] == after.project_observations.last());
            }
        }
    }
}

/// Whether a row of a store is what it keeps of an observation of one of some origins,
/// with the origin beside it.
#[verifier::opaque]
pub open spec fn is_kept(
    after: StoreModel,
    i: int,
    generation_id: i64,
    session: Option<String>,
    origin: OriginReconciliation,
    k: int,
) -> bool {
    let row = after.project_observations[i];
    &&& 0 <= i < after.project_observations.len()
    &&& keeps(row, generation_id, row.origin_id, session, origin, origin.observations@[k])
    &&& exists|m: int|
        0 <= m < after.discovery_origins.len() && (#[trigger] after.discovery_origins[m]).id == row.origin_id
            && after.discovery_origins[m].generation_id == generation_id && after.discovery_origins[m].completed
            == origin.completed
}

proof fn lemma_kept_on(
    before: StoreModel,
    after: StoreModel,
    i: int,
    generation_id: i64,
    session: Option<String>,
    origin: OriginReconciliation,
    k: int,
)
    requires
        is_kept(before, i, generation_id, session, origin, k),
        before.project_observations.len() <= after.project_observations.len(),
        after.project_observations[i] == before.project_observations[i],
        before.discovery_origins.len() <= after.discovery_origins.len(),
        forall|m: int|
            0 <= m < before.discovery_origins.len() ==> after.discovery_origins[m] == #[trigger] before.discovery_origins[m],
    ensures
        is_kept(after, i, generation_id, session, origin, k),
{
    reveal(is_kept);
    let row = before.project_observations[i];
    let m = choose|m: int|
        0 <= m < before.discovery_origins.len() && (#[trigger] before.discovery_origins[m]).id == row.origin_id
            && before.discovery_origins[m].generation_id == generation_id && before.discovery_origins[m].completed
            == origin.completed;
    assert(after.discovery_origins[m] == before.discovery_origins[m]);
}

proof fn lemma_origin_step(before: StoreModel, generation_id: i64, session: Option<String>, origin: OriginReconciliation)
    requires
        origin_stored(before, generation_id, session, origin) is Ok,
    ensures
        ({
            let after = origin_stored(before, generation_id, session, origin)->Ok_0;
            let n = before.project_observations.len();
            &&& after.project_observations.len() == n + origin.observations@.len()
            &&& forall|i: int| 0 <= i < n ==> after.project_observations[i] == #[trigger] before.project_observations[i]
            &&& after.discovery_origins.len() == before.discovery_origins.len() + 1
            &&& forall|m: int|
                0 <= m < before.discovery_origins.len() ==> after.discovery_origins[m] == #[trigger] before.discovery_origins[m]
            &&& after.discovery_origins.last().generation_id == generation_id
            &&& after.discovery_origins.last().kind == origin.kind
            &&& after.discovery_origins.last().configured_path == decode_utf8(origin.configured_path@)
            &&& after.discovery_origins.last().completed == origin.completed
            &&& after.discovery_origins.last().error == optional_text(origin.error)
            &&& after.discovery_generations == before.discovery_generations
            &&& after.worktree_discovery_failures == before.worktree_discovery_failures
            &&& after.linked_worktrees == before.linked_worktrees
            &&& forall|k: int|
                0 <= k < origin.observations@.len() ==> #[trigger] is_kept(after, n + k, generation_id, session, origin, k)
        }),
{
    reveal(is_kept);
    let after = origin_stored(before, generation_id, session, origin)->Ok_0;
    let id = before.next_origin_id;
    let canonical = crate::store::generations::optional_path_text(origin.canonical_path)->Ok_0;
    let between = StoreModel {
        discovery_origins: before.discovery_origins.push(
            OriginModel {
                id,
                generation_id,
                kind: origin.kind,
                configured_path: decode_utf8(origin.configured_path@),
                canonical_path: canonical,
                completed: origin.completed,
                error: optional_text(origin.error),
            },
        ),
        next_origin_id: (id + 1) as i64,
        ..before
    };
    lemma_observations(between, generation_id, id, session, origin, origin.observations@);
    let n = before.project_observations.len();
    let last = before.discovery_origins.len() as int;
    assert(after.discovery_origins[last].id == id);
    assert forall|k: int| 0 <= k < origin.observations@.len() implies #[trigger] is_kept(
        after,
        n + k,
        generation_id,
        session,
        origin,
        k,
    ) by {
        assert(keeps(after.project_observations[n + k], generation_id, id, session, origin, origin.observations@[k]));
    }
    assert forall|i: int| 0 <= i < n implies after.project_observations[i] == #[trigger] before.project_observations[i] by {
        assert(between.project_observations[i] == before.project_observations[i]);
    }
}

/// Storing origins keeps all that was on record, and adds a row for each origin, with
/// what is said of it.
pub proof fn origins_are_kept(
    store: StoreModel,
    generation_id: i64,
    session: Option<String>,
    origins: Seq<OriginReconciliation>,
)
    requires
        origins_stored(store, generation_id, session, origins) is Ok,
    ensures
        ({
            let after = origins_stored(store, generation_id, session, origins)->Ok_0;
            let n = store.project_observations.len();
            &&& n <= after.project_observations.len()
            &&& forall|i: int| 0 <= i < n ==> after.project_observations[i] == #[trigger] store.project_observations[i]
            &&& after.discovery_origins.len() == store.discovery_origins.len() + origins.len()
            &&& forall|m: int|
                0 <= m < store.discovery_origins.len() ==> after.discovery_origins[m] == #[trigger] store.discovery_origins[m]
            &&& forall|j: int|
                0 <= j < origins.len() ==> {
                    let row = after.discovery_origins[store.discovery_origins.len() + j];
                    &&& row.generation_id == generation_id
                    &&& row.kind == (#[trigger] origins[j]).kind
                    &&& row.configured_path == decode_utf8(origins[j].configured_path@)
                    &&& row.completed == origins[j].completed
                    &&& row.error == optional_text(origins[j].error)
                }
            &&& after.discovery_generations == store.discovery_generations
            &&& after.worktree_discovery_failures == store.worktree_discovery_failures
            &&& after.linked_worktrees == store.linked_worktrees
        }),
    decreases origins.len(),
{
    if origins.len() > 0 {
        let front = origins.drop_last();
        origins_are_kept(store, generation_id, session, front);
        let before = origins_stored(store, generation_id, session, front)->Ok_0;
        let after = origins_stored(store, generation_id, session, origins)->Ok_0;
        lemma_origin_step(before, generation_id, session, origins.last());
        let n = store.discovery_origins.len();
        assert forall|i: int| 0 <= i < store.project_observations.len() implies after.project_observations[i]
            == #[trigger] store.project_observations[i] by {
            assert(after.project_observations[i] == before.project_observations[i]);
        }
        assert forall|m: int| 0 <= m < n implies after.discovery_origins[m] == #[trigger] store.discovery_origins[m] by {
            assert(after.discovery_origins[m] == before.discovery_origins[m]);
        }
        assert forall|j: int| 0 <= j < origins.len() implies {
            let row = after.discovery_origins[n + j];
            &&& row.generation_id == generation_id
            &&& row.kind == (#[trigger] origins[j]).kind
            &&& row.configured_path == decode_utf8(origins[j].configured_path@)
            &&& row.completed == origins[j].completed
            &&& row.error == optional_text(origins[j].error)
        } by {
            if j < front.len() {
                assert(front[j] == origins[j]);
                assert(after.discovery_origins[n + j] == before.discovery_origins[n + j]);
            } else {
                assert(after.discovery_origins[n + j] == after.discovery_origins.last());
            }
        }
    }
}

/// Of every observation of every origin a row is kept, with the origin that it belongs
/// to.
pub proof fn observations_are_kept_with_their_origin(
    store: StoreModel,
    generation_id: i64,
    session: Option<String>,
    origins: Seq<OriginReconciliation>,
    j: int,
    k: int,
) -> (i: int)
    requires
        origins_stored(store, generation_id, session, origins) is Ok,
        0 <= j < origins.len(),
        0 <= k < origins[j].observations@.len(),
    ensures
        store.project_observations.len() <= i,
        is_kept(origins_stored(store, generation_id, session, origins)->Ok_0, i, generation_id, session, origins[j], k),
    decreases origins.len(),
{
    let front = origins.drop_last();
    let before = origins_stored(store, generation_id, session, front)->Ok_0;
    let after = origins_stored(store, generation_id, session, origins)->Ok_0;
    origins_are_kept(store, generation_id, session, front);
    lemma_origin_step(before, generation_id, session, origins.last());
    let at = before.project_observations.len();
    if j < front.len() {
        assert(front[j] == origins[j]);
        let i = observations_are_kept_with_their_origin(store, generation_id, session, front, j, k);
        assert(0 <= i < at) by {
            reveal(is_kept);
        }
        assert(after.project_observations[i] == before.project_observations[i]);
        lemma_kept_on(before, after, i, generation_id, session, front[j], k);
        i
    } else {
        assert(is_kept(after, at + k, generation_id, session, origins.last(), k));
        at + k
    }
}

/// Every row that storing origins adds is one that is kept of an observation of one of
/// them.
pub proof fn nothing_else_is_kept(
    store: StoreModel,
    generation_id: i64,
    session: Option<String>,
    origins: Seq<OriginReconciliation>,
    i: int,
) -> (found: (int, int))
    requires
        origins_stored(store, generation_id, session, origins) is Ok,
        store.project_observations.len() <= i < origins_stored(
            store,
            generation_id,
            session,
            origins,
        )->Ok_0.project_observations.len(),
    ensures
        0 <= found.0 < origins.len(),
        0 <= found.1 < origins[found.0].observations@.len(),
        is_kept(
            origins_stored(store, generation_id, session, origins)->Ok_0,
            i,
            generation_id,
            session,
            origins[found.0],
            found.1,
        ),
    decreases origins.len(),
{
    let front = origins.drop_last();
    let before = origins_stored(store, generation_id, session, front)->Ok_0;
    let after = origins_stored(store, generation_id, session, origins)->Ok_0;
    assert(origins.len() > 0);
    lemma_origin_step(before, generation_id, session, origins.last());
    let at = before.project_observations.len();
    if i < at {
        let (j, k) = nothing_else_is_kept(store, generation_id, session, front, i);
        assert(after.project_observations[i] == before.project_observations[i]);
        lemma_kept_on(before, after, i, generation_id, session, front[j], k);
        assert(front[j] == origins[j]);
        (j, k)
    } else {
        assert(is_kept(after, at + (i - at), generation_id, session, origins.last(), i - at));
        (origins.len() - 1, i - at)
    }
}

/// Storing a discovery takes its authority from every discovery before it and gives it
/// to the new one alone, under its policy and session.
pub proof fn new_generations_replace_the_old(store: StoreModel, created_at: i64, reconciliation: GenerationReconciliation)
    requires
        generation_stored(store, created_at, reconciliation) is Ok,
    ensures
        ({
            let after = generation_stored(store, created_at, reconciliation)->Ok_0;
            let rows = store.discovery_generations;
            &&& after.discovery_generations.len() == rows.len() + 1
            &&& forall|i: int|
                0 <= i < rows.len() ==> (#[trigger] after.discovery_generations[i]) == (GenerationModel {
                    authority_valid: false,
                    ..rows[i]
                })
            &&& after.discovery_generations.last().authority_valid
            &&& after.discovery_generations.last().id == store.next_generation_id
            &&& after.discovery_generations.last().created_at == created_at
            &&& after.discovery_generations.last().policy_hash == reconciliation.policy_hash@
            &&& after.discovery_generations.last().boot_session_id == optional_text(reconciliation.boot_session_id)
            &&& after.worktree_discovery_failures == store.worktree_discovery_failures
            &&& after.linked_worktrees == store.linked_worktrees
        }),
{
    let base = StoreModel {
        discovery_generations: store.discovery_generations.map_values(
            |row: GenerationModel| crate::store::generations::revoked(row),
        ).push(
            GenerationModel {
                id: store.next_generation_id,
                created_at,
                policy_hash: reconciliation.policy_hash@,
                boot_session_id: optional_text(reconciliation.boot_session_id),
                authority_valid: true,
            },
        ),
        next_generation_id: (store.next_generation_id + 1) as i64,
        ..store
    };
    origins_are_kept(
        base,
        store.next_generation_id,
        reconciliation.boot_session_id,
        reconciliation.origins@,
    );
}

/// Verifying a project once more changes the identities of its observations that may be
/// acted on, and of nothing else; it fails exactly if there is no such observation, or
/// the identity or the path cannot be stored.
pub proof fn verifying_again_changes_identities_alone(
    store: StoreModel,
    generation_id: i64,
    path: Seq<u8>,
    identity: ReviewedIdentity,
)
    requires
        observations_reverified(store, generation_id, path, identity) is Ok,
    ensures
        ({
            let after = observations_reverified(store, generation_id, path, identity)->Ok_0;
            let rows = store.project_observations;
            &&& (StoreModel { project_observations: rows, ..after }) == store
            &&& after.project_observations.len() == rows.len()
            &&& exists|i: int|
                0 <= i < rows.len() && (#[trigger] rows[i]).project_path == decode_utf8(path) && may_act_on(
                    store,
                    generation_id,
                    rows[i],
                )
            &&& forall|i: int|
                0 <= i < rows.len() ==> {
                    let row = #[trigger] after.project_observations[i];
                    if rows[i].project_path == decode_utf8(path) && may_act_on(store, generation_id, rows[i]) {
                        &&& row.project_identity == identity.project@
                        &&& row.target_identity == Some(identity.target@)
                        &&& row.boot_session_id == (match identity.boot_session {
                            Some(session) => Some(session.0@),
                            None => None,
                        })
                        &&& row.generation_id == rows[i].generation_id
                        &&& row.origin_id == rows[i].origin_id
                        &&& row.project_path == rows[i].project_path
                        &&& row.observed_at == rows[i].observed_at
                        &&& row.authorized == rows[i].authorized
                        &&& row.blocked_reason == rows[i].blocked_reason
                    } else {
                        row == rows[i]
                    }
                }
        }),
{
    let text = decode_utf8(path);
    let p = |row: ObservationModel| row.project_path == text && may_act_on(store, generation_id, row);
    let i = choose|i: int| 0 <= i < store.project_observations.len() && p(#[trigger] store.project_observations[i]);
    assert(store.project_observations[i].project_path == text);
}

// -------------------------------------------------------------------- projects

/// Whether a project is on record.
pub open spec fn on_record(projects: Seq<ProjectModel>, path: Seq<char>) -> bool {
    exists|i: int| 0 <= i < projects.len() && (#[trigger] projects[i]).path == path
}

/// Seeing a project puts it on record: one that was there keeps when it was discovered
/// and cleaned and is marked as seen now; one that was not is new now; the others are
/// left as they are.
pub proof fn seen_projects_are_on_record(projects: Seq<ProjectModel>, path: Seq<char>, now: i64)
    ensures
        on_record(project_seen(projects, path, now), path),
        on_record(projects, path) ==> project_seen(projects, path, now).len() == projects.len(),
        !on_record(projects, path) ==> project_seen(projects, path, now).len() == projects.len() + 1,
        !on_record(projects, path) ==> project_seen(projects, path, now).last() == (ProjectModel {
            path,
            discovered_at: now,
            last_seen_at: now,
            last_cleaned_at: None,
        }),
        forall|i: int|
            0 <= i < projects.len() ==> {
                let row = #[trigger] project_seen(projects, path, now)[i];
                if projects[i].path == path {
                    row == (ProjectModel { last_seen_at: now, ..projects[i] })
                } else {
                    row == projects[i]
                }
            },
{
    let key = |row: ProjectModel| row.path == path;
    let after = project_seen(projects, path, now);
    if on_record(projects, path) {
        let i = choose|i: int| 0 <= i < projects.len() && (#[trigger] projects[i]).path == path;
        assert(key(projects[i]));
        assert(after[i].path == path);
    } else {
        assert(!crate::store::table::some_row(projects, key)) by {
            if crate::store::table::some_row(projects, key) {
                let i = choose|i: int| 0 <= i < projects.len() && key(#[trigger] projects[i]);
                assert(projects[i].path == path);
            }
        }
        assert(after[projects.len() as int].path == path);
    }
}

/// Observing a project puts it on record as seeing it does, but never moves the time at
/// which it was last seen back.
pub proof fn observed_projects_are_on_record(projects: Seq<ProjectModel>, path: Seq<char>, now: i64)
    ensures
        on_record(project_observed(projects, path, now), path),
        !on_record(projects, path) ==> project_observed(projects, path, now) == projects.push(
            ProjectModel { path, discovered_at: now, last_seen_at: now, last_cleaned_at: None },
        ),
        forall|i: int|
            0 <= i < projects.len() ==> {
                let row = #[trigger] project_observed(projects, path, now)[i];
                if projects[i].path == path {
                    &&& row.path == path
                    &&& row.discovered_at == projects[i].discovered_at
                    &&& row.last_cleaned_at == projects[i].last_cleaned_at
                    &&& row.last_seen_at >= now
                    &&& row.last_seen_at >= projects[i].last_seen_at
                    &&& row.last_seen_at == now || row.last_seen_at == projects[i].last_seen_at
                } else {
                    row == projects[i]
                }
            },
{
    let key = |row: ProjectModel| row.path == path;
    let after = project_observed(projects, path, now);
    if on_record(projects, path) {
        let i = choose|i: int| 0 <= i < projects.len() && (#[trigger] projects[i]).path == path;
        assert(key(projects[i]));
        assert(after[i].path == path);
    } else {
        assert(!crate::store::table::some_row(projects, key)) by {
            if crate::store::table::some_row(projects, key) {
                let i = choose|i: int| 0 <= i < projects.len() && key(#[trigger] projects[i]);
                assert(projects[i].path == path);
            }
        }
        assert(after[projects.len() as int].path == path);
    }
}

/// Marking a project as cleaned changes when it was last cleaned, and nothing else; a
/// project that is not on record is not put there.
pub proof fn cleaned_projects_are_marked(projects: Seq<ProjectModel>, path: Seq<char>, when: i64)
    ensures
        project_cleaned(projects, path, when).len() == projects.len(),
        forall|i: int|
            0 <= i < projects.len() ==> {
                let row = #[trigger] project_cleaned(projects, path, when)[i];
                &&& row.path == projects[i].path
                &&& row.discovered_at == projects[i].discovered_at
                &&& row.last_seen_at == projects[i].last_seen_at
                &&& row.last_cleaned_at == if projects[i].path == path {
                    Some(when)
                } else {
                    projects[i].last_cleaned_at
                }
            },
{
}

/// Removing a project takes it off the record and leaves every other.
pub proof fn removed_projects_are_gone(projects: Seq<ProjectModel>, path: Seq<char>)
    ensures
        !on_record(without_project(projects, path), path),
        forall|row: ProjectModel| #[trigger]
            without_project(projects, path).contains(row) <==> projects.contains(row) && row.path != path,
{
    let p = |row: ProjectModel| row.path != path;
    chosen_rows_have_the_property(projects, p);
    let after = without_project(projects, path);
    if on_record(after, path) {
        let i = choose|i: int| 0 <= i < after.len() && (#[trigger] after[i]).path == path;
        assert(after.contains(after[i]));
    }
    assert forall|row: ProjectModel| #[trigger] after.contains(row) <==> projects.contains(row) && row.path != path by {
        assert(after.contains(row) <==> projects.contains(row) && p(row));
    }
}

/// A project that is found at another path is on record there and no longer at the old
/// one: it was discovered when the earlier of the two records says, and last seen and
/// cleaned when the later one says.
pub proof fn moved_projects_keep_their_times(projects: Seq<ProjectModel>, old_path: Seq<char>, new_path: Seq<char>, i: int, j: int)
    requires
        old_path != new_path,
        0 <= i < projects.len(),
        projects[i].path == old_path,
        forall|k: int| 0 <= k < projects.len() && k != i ==> (#[trigger] projects[k]).path != old_path,
    ensures
        !on_record(project_renamed(projects, old_path, new_path), old_path),
        !on_record(projects, new_path) ==> project_renamed(projects, old_path, new_path).contains(
            (ProjectModel { path: new_path, ..projects[i] }),
        ),
        0 <= j < projects.len() && projects[j].path == new_path ==> exists|row: ProjectModel| #[trigger]
            project_renamed(projects, old_path, new_path).contains(row) && row.path == new_path && row.discovered_at
                <= projects[i].discovered_at && row.discovered_at <= projects[j].discovered_at && (row.discovered_at
                == projects[i].discovered_at || row.discovered_at == projects[j].discovered_at) && row.last_seen_at
                >= projects[i].last_seen_at && row.last_seen_at >= projects[j].last_seen_at && (row.last_seen_at
                == projects[i].last_seen_at || row.last_seen_at == projects[j].last_seen_at) && (
            row.last_cleaned_at is None <==> projects[i].last_cleaned_at is None && projects[j].last_cleaned_at is None) && (
            projects[i].last_cleaned_at matches Some(a) ==> row.last_cleaned_at->0 >= a) && (
            projects[j].last_cleaned_at matches Some(b) ==> row.last_cleaned_at->0 >= b) && (row.last_cleaned_at
                == projects[i].last_cleaned_at || row.last_cleaned_at == projects[j].last_cleaned_at),
        forall|row: ProjectModel|
            row.path != old_path && row.path != new_path ==> (#[trigger] project_renamed(projects, old_path, new_path).contains(
                row,
            ) <==> projects.contains(row)),
{
    let old_key = |row: ProjectModel| row.path == old_path;
    let new_key = |row: ProjectModel| row.path == new_path;
    crate::store::table::first_row_is(projects, old_key, i);
    let moved = projects[i];
    let merge = |row: ProjectModel| crate::store::projects::merged_project(row, moved);
    let new = ProjectModel { path: new_path, ..moved };
    let merged = crate::store::table::upserted(projects, new_key, merge, new);
    let after = project_renamed(projects, old_path, new_path);
    assert(after == without_project(merged, old_path));
    removed_projects_are_gone(merged, old_path);
    if 0 <= j < projects.len() && projects[j].path == new_path {
        assert(new_key(projects[j]));
        assert(merged[j] == merge(projects[j]));
        assert(merged.contains(merged[j]));
        assert(after.contains(merged[j]));
    }
    if !on_record(projects, new_path) {
        assert(!crate::store::table::some_row(projects, new_key)) by {
            if crate::store::table::some_row(projects, new_key) {
                let k = choose|k: int| 0 <= k < projects.len() && new_key(#[trigger] projects[k]);
                assert(projects[k].path == new_path);
            }
        }
        assert(merged[projects.len() as int] == new);
        assert(merged.contains(new));
    }
    assert forall|row: ProjectModel| row.path != old_path && row.path != new_path implies (#[trigger] after.contains(row)
        <==> projects.contains(row)) by {
        if projects.contains(row) {
            let k = choose|k: int| 0 <= k < projects.len() && projects[k] == row;
            assert(merged[k] == row);
            assert(merged.contains(row));
        }
        if after.contains(row) {
            assert(merged.contains(row));
            let k = choose|k: int| 0 <= k < merged.len() && merged[k] == row;
            if k < projects.len() {
                assert(projects[k] == row || merged[k].path == new_path);
                assert(projects.contains(projects[k]));
            }
        }
    }
}

// -------------------------------------------------------------------- schedule

/// What is put down of the schedule is what is read back, and each entry leaves the
/// others as they were: the times of the next work do not touch when a scan was last
/// forced or is to be tried again, and the other way round.
pub proof fn schedules_are_read_back(store: StoreModel, updated: i64, clean: i64, scan: i64)
    ensures
        ({
            let after = with_scheduler(store, scheduled(store.scheduler_state, updated, clean, scan));
            &&& after.scheduler_state matches Some(row)
            &&& row.updated_at == updated && row.next_clean_at == clean && row.next_scan_at == scan
            &&& match store.scheduler_state {
                Some(before) => row.last_forced_scan_at == before.last_forced_scan_at && row.scan_retry_at
                    == before.scan_retry_at,
                None => row.last_forced_scan_at is None && row.scan_retry_at is None,
            }
            &&& (StoreModel { scheduler_state: store.scheduler_state, ..after }) == store
        }),
{
}

/// A forced scan is put down with its time and leaves an existing schedule as it was.
pub proof fn forced_scans_are_read_back(state: Option<SchedulerRow>, when: i64)
    ensures
        forced(state, when).last_forced_scan_at == Some(when),
        state matches Some(before) ==> forced(state, when).updated_at == before.updated_at && forced(state, when).next_clean_at
            == before.next_clean_at && forced(state, when).next_scan_at == before.next_scan_at && forced(
            state,
            when,
        ).scan_retry_at == before.scan_retry_at,
        state is None ==> forced(state, when).scan_retry_at is None,
{
}

/// Once a scan is no longer to be tried again, nothing else of the schedule has changed.
pub proof fn cleared_retries_are_gone(store: StoreModel)
    ensures
        retry_cleared(store).scheduler_state matches Some(row) ==> row.scan_retry_at is None && (
        store.scheduler_state matches Some(before) && row.updated_at == before.updated_at && row.next_clean_at
            == before.next_clean_at && row.next_scan_at == before.next_scan_at && row.last_forced_scan_at
            == before.last_forced_scan_at),
        retry_cleared(store).scheduler_state is None <==> store.scheduler_state is None,
        (StoreModel { scheduler_state: store.scheduler_state, ..retry_cleared(store) }) == store,
{
}

/// An observation can be stored exactly if its path is text, its time is not before the
/// epoch, its numbers can be stored, and it is not there already.
pub proof fn observations_that_can_be_stored(
    store: StoreModel,
    generation_id: i64,
    origin_id: i64,
    session: Option<String>,
    origin: OriginReconciliation,
    observation: ObservationReconciliation,
)
    ensures
        observation_stored(store, generation_id, origin_id, session, origin, observation) is Ok <==> {
            &&& valid_utf8(observation.project_path@)
            &&& observation.observed_at@ >= 0
            &&& observation.project_identity.device <= i64::MAX && observation.project_identity.inode <= i64::MAX
            &&& observation.target_identity matches Some(target) ==> target.device <= i64::MAX && target.inode <= i64::MAX
            &&& forall|i: int|
                0 <= i < store.project_observations.len() ==> !((#[trigger] store.project_observations[i]).generation_id
                    == generation_id && store.project_observations[i].origin_id == origin_id
                    && store.project_observations[i].project_path == decode_utf8(observation.project_path@))
        },
{
    let rows = store.project_observations;
    if valid_utf8(observation.project_path@) && observation.observed_at@ >= 0 {
        let secs = crate::store::epoch_of(observation.observed_at@)->0;
        let row = crate::store::generations::observation_row(generation_id, origin_id, session, origin, observation, secs);
        let p = |r: ObservationModel| crate::store::generations::same_observation(r, row);
        if crate::store::table::some_row(rows, p) {
            let i = choose|i: int| 0 <= i < rows.len() && p(#[trigger] rows[i]);
            assert(rows[i].generation_id == generation_id);
        } else {
            assert forall|i: int| 0 <= i < rows.len() implies !((#[trigger] rows[i]).generation_id == generation_id
                && rows[i].origin_id == origin_id && rows[i].project_path == decode_utf8(observation.project_path@)) by {
                assert(!p(rows[i]));
            }
        }
    }
}

} // verus!
