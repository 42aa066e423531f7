//! Generations of discovery: which projects were seen, from where, and whether
//! what was seen may be acted on.

use crate::identity::{session_text, FilesystemIdentity, IdentityModel, ReviewedIdentity};
use crate::order::{key_less, lex_less, text_rank, Ranked};
use crate::path::PathBuf;
use crate::store::plans::{newest_generation, newest_index};
use crate::store::projects::{observe_project, project_observed};
use crate::store::rows::{
    copy_identity, copy_text, optional_identity, optional_text, DiscoveryGeneration, DiscoveryOriginRecord,
    GenerationModel, GenerationReconciliation, GenerationRow, ObservationModel, ObservationReconciliation, ObservationRow,
    OriginModel, OriginReconciliation, OriginRow, ProjectObservation,
};
use crate::store::table::{
    any_row, push_row, rows_view, select_rows, some_row, sort_rows, stably_sorted, update_rows,
};
use crate::store::{epoch_of, from_epoch, path_to_string, time_of, to_epoch, Store, StoreError, StoreFault, StoreModel};
use crate::text::text_equal;
use crate::time::SystemTime;
use crate::store::keys::{consistent, generation_numbers, stored_generations_keep_consistency};
use vstd::prelude::*;
use vstd::utf8::*;

verus! {

// ------------------------------------------------------------------- storing

/// Whether an identity can be stored.
pub open spec fn identity_fits(identity: IdentityModel) -> bool {
    identity.device <= i64::MAX && identity.inode <= i64::MAX
}

/// Whether an optional identity can be stored.
pub open spec fn optional_identity_fits(identity: Option<IdentityModel>) -> bool {
    identity matches Some(i) ==> identity_fits(i)
}

/// Why an observation is blocked: the reason it came with, or that its origin was
/// not completed.
pub open spec fn blocked_reason_of(origin: OriginReconciliation, observation: ObservationReconciliation) -> Option<Seq<char>> {
    if !origin.completed && observation.blocked_reason is None {
        match origin.error {
            Some(error) => Some("origin incomplete: "@ + error@),
            None => Some("origin incomplete"@),
        }
    } else {
        optional_text(observation.blocked_reason)
    }
}

/// The row of an observation; only one of a completed origin is authorized.
pub open spec fn observation_row(
    generation_id: i64,
    origin_id: i64,
    boot_session_id: Option<String>,
    origin: OriginReconciliation,
    observation: ObservationReconciliation,
    observed_at: i64,
) -> ObservationModel {
    ObservationModel {
        generation_id,
        origin_id,
        project_path: decode_utf8(observation.project_path@),
        project_identity: observation.project_identity@,
        target_identity: optional_identity(observation.target_identity),
        observed_at,
        authorized: origin.completed && observation.authorized,
        blocked_reason: blocked_reason_of(origin, observation),
        boot_session_id: optional_text(boot_session_id),
    }
}

/// Whether two observations have one key.
pub open spec fn same_observation(a: ObservationModel, b: ObservationModel) -> bool {
    a.generation_id == b.generation_id && a.origin_id == b.origin_id && a.project_path == b.project_path
}

/// The store with one more observation.
pub open spec fn observation_stored(
    store: StoreModel,
    generation_id: i64,
    origin_id: i64,
    boot_session_id: Option<String>,
    origin: OriginReconciliation,
    observation: ObservationReconciliation,
) -> Result<StoreModel, StoreFault> {
    let path = observation.project_path@;
    if !valid_utf8(path) {
        Err(StoreFault::NotText(path))
    } else {
        match epoch_of(observation.observed_at@) {
            None => Err(StoreFault::BeforeEpoch),
            Some(secs) => {
                let row = observation_row(generation_id, origin_id, boot_session_id, origin, observation, secs);
                if !identity_fits(row.project_identity) || !optional_identity_fits(row.target_identity) {
                    Err(StoreFault::OutOfRange)
                } else if some_row(store.project_observations, |r: ObservationModel| same_observation(r, row)) {
                    Err(StoreFault::DuplicateObservation(path))
                } else {
                    Ok(
                        StoreModel {
                            project_observations: store.project_observations.push(row),
                            projects: project_observed(store.projects, row.project_path, secs),
                            ..store
                        },
                    )
                }
            },
        }
    }
}

/// The store with the observations of an origin.
pub open spec fn observations_stored(
    store: StoreModel,
    generation_id: i64,
    origin_id: i64,
    boot_session_id: Option<String>,
    origin: OriginReconciliation,
    observations: Seq<ObservationReconciliation>,
) -> Result<StoreModel, StoreFault>
    decreases observations.len(),
{
    if observations.len() == 0 {
        Ok(store)
    } else {
        match observations_stored(
            store,
            generation_id,
            origin_id,
            boot_session_id,
            origin,
            observations.drop_last(),
        ) {
            Err(fault) => Err(fault),
            Ok(before) => observation_stored(
                before,
                generation_id,
                origin_id,
                boot_session_id,
                origin,
                observations.last(),
            ),
        }
    }
}

/// The text of an optional path, if it is one.
pub open spec fn optional_path_text(path: Option<PathBuf>) -> Result<Option<Seq<char>>, StoreFault> {
    match path {
        None => Ok(None),
        Some(p) => if valid_utf8(p@) {
            Ok(Some(decode_utf8(p@)))
        } else {
            Err(StoreFault::NotText(p@))
        },
    }
}

/// The store with one more origin and its observations.
pub open spec fn origin_stored(
    store: StoreModel,
    generation_id: i64,
    boot_session_id: Option<String>,
    origin: OriginReconciliation,
) -> Result<StoreModel, StoreFault> {
    if !valid_utf8(origin.configured_path@) {
        Err(StoreFault::NotText(origin.configured_path@))
    } else {
        match optional_path_text(origin.canonical_path) {
            Err(fault) => Err(fault),
            Ok(canonical) => if store.next_origin_id == i64::MAX {
                Err(StoreFault::OutOfRange)
            } else {
                observations_stored(
                    StoreModel {
                        discovery_origins: store.discovery_origins.push(
                            OriginModel {
                                id: store.next_origin_id,
                                generation_id,
                                kind: origin.kind,
                                configured_path: decode_utf8(origin.configured_path@),
                                canonical_path: canonical,
                                completed: origin.completed,
                                error: optional_text(origin.error),
                            },
                        ),
                        next_origin_id: (store.next_origin_id + 1) as i64,
                        ..store
                    },
                    generation_id,
                    store.next_origin_id,
                    boot_session_id,
                    origin,
                    origin.observations@,
                )
            },
        }
    }
}

/// The store with more origins.
pub open spec fn origins_stored(
    store: StoreModel,
    generation_id: i64,
    boot_session_id: Option<String>,
    origins: Seq<OriginReconciliation>,
) -> Result<StoreModel, StoreFault>
    decreases origins.len(),
{
    if origins.len() == 0 {
        Ok(store)
    } else {
        match origins_stored(store, generation_id, boot_session_id, origins.drop_last()) {
            Err(fault) => Err(fault),
            Ok(before) => origin_stored(before, generation_id, boot_session_id, origins.last()),
        }
    }
}

/// A generation that may not be acted on any more.
pub open spec fn revoked(row: GenerationModel) -> GenerationModel {
    GenerationModel { authority_valid: false, ..row }
}

/// The store with a new generation in place of the valid one.
pub open spec fn generation_stored(store: StoreModel, created_at: i64, reconciliation: GenerationReconciliation) -> Result<
    StoreModel,
    StoreFault,
> {
    if store.next_generation_id == i64::MAX {
        Err(StoreFault::OutOfRange)
    } else {
        origins_stored(
            StoreModel {
                discovery_generations: store.discovery_generations.map_values(|row: GenerationModel| revoked(row)).push(
                    GenerationModel {
                        id: store.next_generation_id,
                        created_at,
                        policy_hash: reconciliation.policy_hash@,
                        boot_session_id: optional_text(reconciliation.boot_session_id),
                        authority_valid: true,
                    },
                ),
                next_generation_id: (store.next_generation_id + 1) as i64,
                ..store
            },
            store.next_generation_id,
            reconciliation.boot_session_id,
            reconciliation.origins@,
        )
    }
}

fn identity_can_be_stored(identity: &FilesystemIdentity) -> (fits: bool)
    ensures
        fits == identity_fits(identity@),
{
    identity.device <= 9_223_372_036_854_775_807 && identity.inode <= 9_223_372_036_854_775_807
}

fn reason_text(origin: &OriginReconciliation, observation: &ObservationReconciliation) -> (reason: Option<String>)
    ensures
        optional_text(reason) == blocked_reason_of(*origin, *observation),
{
    if !origin.completed && observation.blocked_reason.is_none() {
        match &origin.error {
            Some(error) => {
                let mut text = "origin incomplete: ".to_owned();
                text.append(error.as_str());
                Some(text)
            },
            None => Some("origin incomplete".to_owned()),
        }
    } else {
        copy_text(&observation.blocked_reason)
    }
}

/// Whether a change of the store went as specified.
pub open spec fn went_as(result: Result<(), StoreError>, after: StoreModel, specified: Result<StoreModel, StoreFault>) -> bool {
    match specified {
        Ok(store) => result is Ok && after == store,
        Err(fault) => result matches Err(error) && error@ == fault,
    }
}

fn store_observation(
    store: &mut Store,
    generation_id: i64,
    origin_id: i64,
    boot_session_id: &Option<String>,
    origin: &OriginReconciliation,
    observation: &ObservationReconciliation,
) -> (result: Result<(), StoreError>)
    ensures
        went_as(
            result,
            final(store)@,
            observation_stored(old(store)@, generation_id, origin_id, *boot_session_id, *origin, *observation),
        ),
{
    let project_path = match path_to_string(&observation.project_path) {
        Ok(text) => text,
        Err(error) => return Err(error),
    };
    let observed_at: i64 = match to_epoch(observation.observed_at) {
        Ok(secs) => secs,
        Err(error) => return Err(error),
    };
    let target_fits = match &observation.target_identity {
        Some(identity) => identity_can_be_stored(identity),
        None => true,
    };
    if !identity_can_be_stored(&observation.project_identity) || !target_fits {
        return Err(StoreError::OutOfRange);
    }
    let row = ObservationRow {
        generation_id,
        origin_id,
        project_path: project_path.clone(),
        project_identity: observation.project_identity.clone(),
        target_identity: copy_identity(&observation.target_identity),
        observed_at,
        authorized: origin.completed && observation.authorized,
        blocked_reason: reason_text(origin, observation),
        boot_session_id: copy_text(boot_session_id),
    };
    let same = |other: &ObservationRow| -> (is: bool)
        ensures
            is == same_observation(other@, row@),
    {
        other.generation_id == row.generation_id && other.origin_id == row.origin_id && other.project_path
            == row.project_path
    };
    if any_row(
        &store.project_observations,
        same,
        Ghost(|other: ObservationModel| same_observation(other, row@)),
    ) {
        return Err(StoreError::DuplicateObservation(observation.project_path.clone()));
    }
    push_row(&mut store.project_observations, row);
    observe_project(&mut store.projects, project_path.as_str(), observed_at);
    Ok(())
}

proof fn lemma_early_observation_fault(
    store: StoreModel,
    generation_id: i64,
    origin_id: i64,
    boot_session_id: Option<String>,
    origin: OriginReconciliation,
    observations: Seq<ObservationReconciliation>,
    n: int,
)
    requires
        0 <= n <= observations.len(),
        observations_stored(
            store,
            generation_id,
            origin_id,
            boot_session_id,
            origin,
            observations.take(n),
        ) is Err,
    ensures
        observations_stored(store, generation_id, origin_id, boot_session_id, origin, observations)
            == observations_stored(
            store,
            generation_id,
            origin_id,
            boot_session_id,
            origin,
            observations.take(n),
        ),
    decreases observations.len() - n,
{
    if n < observations.len() {
        assert(observations.take(n + 1).drop_last() =~= observations.take(n));
        lemma_early_observation_fault(
            store,
            generation_id,
            origin_id,
            boot_session_id,
            origin,
            observations,
            n + 1,
        );
    } else {
        assert(observations.take(n) =~= observations);
    }
}

proof fn lemma_early_origin_fault(
    store: StoreModel,
    generation_id: i64,
    boot_session_id: Option<String>,
    origins: Seq<OriginReconciliation>,
    n: int,
)
    requires
        0 <= n <= origins.len(),
        origins_stored(store, generation_id, boot_session_id, origins.take(n)) is Err,
    ensures
        origins_stored(store, generation_id, boot_session_id, origins) == origins_stored(
            store,
            generation_id,
            boot_session_id,
            origins.take(n),
        ),
    decreases origins.len() - n,
{
    if n < origins.len() {
        assert(origins.take(n + 1).drop_last() =~= origins.take(n));
        lemma_early_origin_fault(store, generation_id, boot_session_id, origins, n + 1);
    } else {
        assert(origins.take(n) =~= origins);
    }
}

fn store_origin(
    store: &mut Store,
    generation_id: i64,
    boot_session_id: &Option<String>,
    origin: &OriginReconciliation,
) -> (result: Result<(), StoreError>)
    ensures
        went_as(result, final(store)@, origin_stored(old(store)@, generation_id, *boot_session_id, *origin)),
{
    let configured_path = match path_to_string(&origin.configured_path) {
        Ok(text) => text,
        Err(error) => return Err(error),
    };
    let canonical_path = match &origin.canonical_path {
        None => None,
        Some(path) => match path_to_string(path) {
            Ok(text) => Some(text),
            Err(error) => return Err(error),
        },
    };
    let origin_id: i64 = store.next_origin_id;
    if origin_id == 9_223_372_036_854_775_807 {
        return Err(StoreError::OutOfRange);
    }
    push_row(
        &mut store.discovery_origins,
        OriginRow {
            id: origin_id,
            generation_id,
            kind: origin.kind,
            configured_path,
            canonical_path,
            completed: origin.completed,
            error: copy_text(&origin.error),
        },
    );
    store.next_origin_id = origin_id + 1;
    let ghost start = store@;
    let ghost all = origin.observations@;
    let mut i: usize = 0;
    assert(all.take(0) =~= Seq::empty());
    while i < origin.observations.len()
        invariant
            i <= origin.observations.len(),
            all == origin.observations@,
            observations_stored(
                start,
                generation_id,
                origin_id,
                *boot_session_id,
                *origin,
                all.take(i as int),
            ) == Ok::<StoreModel, StoreFault>(store@),
            origin_stored(old(store)@, generation_id, *boot_session_id, *origin) == observations_stored(
                start,
                generation_id,
                origin_id,
                *boot_session_id,
                *origin,
                all,
            ),
        decreases origin.observations.len() - i,
    {
        proof {
            assert(all.take(i + 1).drop_last() =~= all.take(i as int));
            assert(all.take(i + 1).last() == all[i as int]);
        }
        match store_observation(
            store,
            generation_id,
            origin_id,
            boot_session_id,
            origin,
            &origin.observations[i],
        ) {
            Ok(_) => {},
            Err(error) => {
                proof {
                    lemma_early_observation_fault(
                        start,
                        generation_id,
                        origin_id,
                        *boot_session_id,
                        *origin,
                        all,
                        i + 1,
                    );
                }
                return Err(error);
            },
        }
        i += 1;
    }
    assert(all.take(i as int) =~= all);
    Ok(())
}

pub(crate) fn store_generation(store: &mut Store, created_at: i64, reconciliation: &GenerationReconciliation) -> (result:
    Result<(), StoreError>)
    ensures
        went_as(result, final(store)@, generation_stored(old(store)@, created_at, *reconciliation)),
{
    let generation_id: i64 = store.next_generation_id;
    if generation_id == 9_223_372_036_854_775_807 {
        return Err(StoreError::OutOfRange);
    }
    let revoke = |row: &GenerationRow| -> (changed: Option<GenerationRow>)
        ensures
            changed matches Some(new) && new@ == revoked(row@),
    {
        Some(
            GenerationRow {
                id: row.id,
                created_at: row.created_at,
                policy_hash: row.policy_hash.clone(),
                boot_session_id: copy_text(&row.boot_session_id),
                authority_valid: false,
            },
        )
    };
    update_rows(&mut store.discovery_generations, revoke, Ghost(|row: GenerationModel| revoked(row)));
    push_row(
        &mut store.discovery_generations,
        GenerationRow {
            id: generation_id,
            created_at,
            policy_hash: reconciliation.policy_hash.clone(),
            boot_session_id: copy_text(&reconciliation.boot_session_id),
            authority_valid: true,
        },
    );
    store.next_generation_id = generation_id + 1;
    let ghost start = store@;
    let ghost all = reconciliation.origins@;
    let mut i: usize = 0;
    assert(all.take(0) =~= Seq::empty());
    while i < reconciliation.origins.len()
        invariant
            i <= reconciliation.origins.len(),
            all == reconciliation.origins@,
            origins_stored(start, generation_id, reconciliation.boot_session_id, all.take(i as int)) == Ok::<
                StoreModel,
                StoreFault,
            >(store@),
            generation_stored(old(store)@, created_at, *reconciliation) == origins_stored(
                start,
                generation_id,
                reconciliation.boot_session_id,
                all,
            ),
        decreases reconciliation.origins.len() - i,
    {
        proof {
            assert(all.take(i + 1).drop_last() =~= all.take(i as int));
            assert(all.take(i + 1).last() == all[i as int]);
        }
        match store_origin(store, generation_id, &reconciliation.boot_session_id, &reconciliation.origins[i]) {
            Ok(_) => {},
            Err(error) => {
                proof {
                    lemma_early_origin_fault(start, generation_id, reconciliation.boot_session_id, all, i + 1);
                }
                return Err(error);
            },
        }
        i += 1;
    }
    assert(all.take(i as int) =~= all);
    Ok(())
}

/// Whether a returned generation is the one that was stored.
pub open spec fn is_new_generation(
    generation: DiscoveryGeneration,
    id: i64,
    created_at: SystemTime,
    reconciliation: GenerationReconciliation,
) -> bool {
    &&& generation.id == id
    &&& generation.created_at == created_at
    &&& generation.policy_hash@ == reconciliation.policy_hash@
    &&& optional_text(generation.boot_session_id) == optional_text(reconciliation.boot_session_id)
}

impl Store {
    /// Stores a generation in place of the valid one. Where that fails, nothing
    /// changes.
    pub fn reconcile_generation(&mut self, created_at: SystemTime, reconciliation: &GenerationReconciliation) -> (result:
        Result<DiscoveryGeneration, StoreError>)
        ensures
            match epoch_of(created_at@) {
                None => result matches Err(error) && error@ == StoreFault::BeforeEpoch && final(self)@ == old(self)@,
                Some(secs) => match generation_stored(old(self)@, secs, *reconciliation) {
                    Err(fault) => result matches Err(error) && error@ == fault && final(self)@ == old(self)@,
                    Ok(store) => final(self)@ == store && (result matches Ok(generation) && is_new_generation(
                        generation,
                        old(self)@.next_generation_id,
                        created_at,
                        *reconciliation,
                    )),
                },
            },
            consistent(old(self)@) ==> consistent(final(self)@),
    {
        proof {
            if consistent(self@) {
                stored_generations_keep_consistency(self@, epoch_of(created_at@)->0, *reconciliation);
            }
        }
        let secs: i64 = match to_epoch(created_at) {
            Ok(secs) => secs,
            Err(error) => return Err(error),
        };
        let mut next = self.duplicate();
        let id: i64 = next.next_generation_id;
        match store_generation(&mut next, secs, reconciliation) {
            Err(error) => Err(error),
            Ok(_) => {
                *self = next;
                Ok(
                    DiscoveryGeneration {
                        id,
                        created_at,
                        policy_hash: reconciliation.policy_hash.clone(),
                        boot_session_id: copy_text(&reconciliation.boot_session_id),
                    },
                )
            },
        }
    }
}

// ------------------------------------------------------------------- reading

/// The newest generation, if it is valid and of this policy.
pub open spec fn current_generation_of(rows: Seq<GenerationModel>, policy_hash: Seq<char>) -> Option<GenerationModel> {
    match newest_generation(rows) {
        Some(newest) => if newest.authority_valid && newest.policy_hash == policy_hash {
            Some(newest)
        } else {
            None
        },
        None => None,
    }
}

/// Whether the discovery under a policy left something out: there is none, or an
/// origin was not completed.
pub open spec fn generation_incomplete(store: StoreModel, policy_hash: Seq<char>) -> bool {
    match current_generation_of(store.discovery_generations, policy_hash) {
        None => true,
        Some(generation) => some_row(
            store.discovery_origins,
            |row: OriginModel| row.generation_id == generation.id && !row.completed,
        ),
    }
}

/// Whether a generation is the newest and valid.
pub open spec fn is_valid_newest(rows: Seq<GenerationModel>, id: i64) -> bool {
    newest_generation(rows) matches Some(newest) && newest.id == id && some_row(
        rows,
        |row: GenerationModel| row.id == id && row.authority_valid,
    )
}

/// Whether an observation comes from a completed origin.
pub open spec fn from_completed_origin(origins: Seq<OriginModel>, row: ObservationModel) -> bool {
    some_row(
        origins,
        |origin: OriginModel|
            origin.id == row.origin_id && origin.generation_id == row.generation_id && origin.completed,
    )
}

/// Whether an observation may be acted on.
pub open spec fn may_act_on(store: StoreModel, generation_id: i64, row: ObservationModel) -> bool {
    &&& row.generation_id == generation_id
    &&& row.authorized
    &&& from_completed_origin(store.discovery_origins, row)
    &&& is_valid_newest(store.discovery_generations, generation_id)
}

/// The order of observations: by path, then by origin.
pub open spec fn observation_before(a: ObservationModel, b: ObservationModel) -> bool {
    lex_less(text_rank(a.project_path), text_rank(b.project_path)) || (!lex_less(
        text_rank(b.project_path),
        text_rank(a.project_path),
    ) && a.origin_id < b.origin_id)
}

/// The observations of a generation that may be acted on, in order.
pub open spec fn actionable(store: StoreModel, generation_id: i64) -> Seq<ObservationModel> {
    stably_sorted(
        store.project_observations.filter(|row: ObservationModel| may_act_on(store, generation_id, row)),
        |a: ObservationModel, b: ObservationModel| observation_before(a, b),
    )
}

/// The origins of a generation, in order.
pub open spec fn origins_of(store: StoreModel, generation_id: i64) -> Seq<OriginModel> {
    stably_sorted(
        store.discovery_origins.filter(|row: OriginModel| row.generation_id == generation_id),
        |a: OriginModel, b: OriginModel| a.id < b.id,
    )
}

/// Whether a returned origin is the one that a row stands for.
pub open spec fn origin_is(origin: DiscoveryOriginRecord, row: OriginModel) -> bool {
    &&& origin.id == row.id
    &&& origin.generation_id == row.generation_id
    &&& origin.kind == row.kind
    &&& origin.configured_path@ == encode_utf8(row.configured_path)
    &&& crate::resolve::optional_path(origin.canonical_path) == (match row.canonical_path {
        Some(path) => Some(encode_utf8(path)),
        None => None,
    })
    &&& origin.completed == row.completed
    &&& optional_text(origin.error) == row.error
}

/// Whether a returned observation is the one that a row stands for.
pub open spec fn observation_is(observation: ProjectObservation, row: ObservationModel) -> bool {
    &&& observation.generation_id == row.generation_id
    &&& observation.origin_id == row.origin_id
    &&& observation.project_path@ == encode_utf8(row.project_path)
    &&& observation.project_identity@ == row.project_identity
    &&& optional_identity(observation.target_identity) == row.target_identity
    &&& optional_text(observation.boot_session_id) == row.boot_session_id
    &&& observation.observed_at@ == time_of(row.observed_at)
    &&& observation.authorized == row.authorized
    &&& optional_text(observation.blocked_reason) == row.blocked_reason
}

fn valid_newest(rows: &Vec<GenerationRow>, id: i64) -> (is: bool)
    ensures
        is == is_valid_newest(rows_view(rows@), id),
{
    let valid = |row: &GenerationRow| -> (is: bool)
        ensures
            is == (row@.id == id && row@.authority_valid),
    {
        row.id == id && row.authority_valid
    };
    match newest_index(rows) {
        Some(i) => rows[i].id == id && any_row(
            rows,
            valid,
            Ghost(|row: GenerationModel| row.id == id && row.authority_valid),
        ),
        None => false,
    }
}

fn of_completed_origin(origins: &Vec<OriginRow>, row: &ObservationRow) -> (is: bool)
    ensures
        is == from_completed_origin(rows_view(origins@), row@),
{
    let own = |origin: &OriginRow| -> (is: bool)
        ensures
            is == (origin@.id == row@.origin_id && origin@.generation_id == row@.generation_id && origin@.completed),
    {
        origin.id == row.origin_id && origin.generation_id == row.generation_id && origin.completed
    };
    any_row(
        origins,
        own,
        Ghost(
            |origin: OriginModel|
                origin.id == row@.origin_id && origin.generation_id == row@.generation_id && origin.completed,
        ),
    )
}

impl Store {
    /// The newest generation, if it is valid and of this policy.
    pub fn current_generation(&self, policy_hash: &str) -> (found: Option<DiscoveryGeneration>)
        ensures
            match current_generation_of(self@.discovery_generations, policy_hash@) {
                Some(row) => found matches Some(generation) && generation.id == row.id && generation.created_at@
                    == time_of(row.created_at) && generation.policy_hash@ == row.policy_hash && optional_text(
                    generation.boot_session_id,
                ) == row.boot_session_id,
                None => found is None,
            },
    {
        match newest_index(&self.discovery_generations) {
            Some(i) => {
                let row = &self.discovery_generations[i];
                if row.authority_valid && text_equal(row.policy_hash.as_str(), policy_hash) {
                    Some(
                        DiscoveryGeneration {
                            id: row.id,
                            created_at: from_epoch(row.created_at),
                            policy_hash: row.policy_hash.clone(),
                            boot_session_id: copy_text(&row.boot_session_id),
                        },
                    )
                } else {
                    None
                }
            },
            None => None,
        }
    }

    /// Whether the newest generation is valid and of this policy.
    pub fn has_matching_generation(&self, policy_hash: &str) -> (has: bool)
        ensures
            has == current_generation_of(self@.discovery_generations, policy_hash@) is Some,
    {
        self.current_generation(policy_hash).is_some()
    }

    /// Whether the discovery under a policy left something out.
    pub fn current_generation_coverage_incomplete(&self, policy_hash: &str) -> (incomplete: bool)
        ensures
            incomplete == generation_incomplete(self@, policy_hash@),
    {
        match self.current_generation(policy_hash) {
            None => true,
            Some(generation) => {
                let id: i64 = generation.id;
                let open = |row: &OriginRow| -> (is: bool)
                    ensures
                        is == (row@.generation_id == id && !row@.completed),
                {
                    row.generation_id == id && !row.completed
                };
                any_row(
                    &self.discovery_origins,
                    open,
                    Ghost(|row: OriginModel| row.generation_id == id && !row.completed),
                )
            },
        }
    }

    /// The origins of a generation, in order.
    pub fn discovery_origins(&self, generation_id: i64) -> (origins: Vec<DiscoveryOriginRecord>)
        ensures
            origins@.len() == origins_of(self@, generation_id).len(),
            forall|i: int|
                0 <= i < origins@.len() ==> origin_is(#[trigger] origins@[i], origins_of(self@, generation_id)[i]),
    {
        let own = |row: &OriginRow| -> (is: bool)
            ensures
                is == (row@.generation_id == generation_id),
        {
            row.generation_id == generation_id
        };
        let mut rows = select_rows(
            &self.discovery_origins,
            own,
            Ghost(|row: OriginModel| row.generation_id == generation_id),
        );
        let less = |a: &OriginRow, b: &OriginRow| -> (is: bool)
            ensures
                is == (a@.id < b@.id),
        {
            a.id < b.id
        };
        sort_rows(&mut rows, less, Ghost(|a: OriginModel, b: OriginModel| a.id < b.id));
        let ghost sorted = origins_of(self@, generation_id);
        let mut origins: Vec<DiscoveryOriginRecord> = Vec::new();
        let mut i: usize = 0;
        while i < rows.len()
            invariant
                i <= rows.len(),
                origins@.len() == i,
                rows_view(rows@) == sorted,
                forall|k: int| 0 <= k < i ==> origin_is(#[trigger] origins@[k], sorted[k]),
            decreases rows.len() - i,
        {
            let row = &rows[i];
            assert(sorted[i as int] == row@);
            origins.push(
                DiscoveryOriginRecord {
                    id: row.id,
                    generation_id: row.generation_id,
                    kind: row.kind,
                    configured_path: PathBuf::new(row.configured_path.as_str()),
                    canonical_path: match &row.canonical_path {
                        Some(path) => Some(PathBuf::new(path.as_str())),
                        None => None,
                    },
                    completed: row.completed,
                    error: copy_text(&row.error),
                },
            );
            i += 1;
        }
        origins
    }

    /// The observations of a generation that may be acted on, in order.
    pub fn authorized_observations(&self, generation_id: i64) -> (observations: Vec<ProjectObservation>)
        ensures
            observations@.len() == actionable(self@, generation_id).len(),
            forall|i: int|
                0 <= i < observations@.len() ==> observation_is(
                    #[trigger] observations@[i],
                    actionable(self@, generation_id)[i],
                ),
    {
        let valid = valid_newest(&self.discovery_generations, generation_id);
        let origins = &self.discovery_origins;
        let wanted = |row: &ObservationRow| -> (is: bool)
            ensures
                is == (row@.generation_id == generation_id && row@.authorized && from_completed_origin(
                    rows_view(origins@),
                    row@,
                ) && valid),
        {
            row.generation_id == generation_id && row.authorized && of_completed_origin(origins, row) && valid
        };
        let mut rows = select_rows(
            &self.project_observations,
            wanted,
            Ghost(|row: ObservationModel| may_act_on(self@, generation_id, row)),
        );
        let less = |a: &ObservationRow, b: &ObservationRow| -> (is: bool)
            ensures
                is == observation_before(a@, b@),
        {
            let first = a.project_path.rank_key();
            let second = b.project_path.rank_key();
            key_less(&first, &second) || (!key_less(&second, &first) && a.origin_id < b.origin_id)
        };
        sort_rows(
            &mut rows,
            less,
            Ghost(|a: ObservationModel, b: ObservationModel| observation_before(a, b)),
        );
        let ghost sorted = actionable(self@, generation_id);
        let mut observations: Vec<ProjectObservation> = Vec::new();
        let mut i: usize = 0;
        while i < rows.len()
            invariant
                i <= rows.len(),
                observations@.len() == i,
                rows_view(rows@) == sorted,
                forall|k: int| 0 <= k < i ==> observation_is(#[trigger] observations@[k], sorted[k]),
            decreases rows.len() - i,
        {
            let row = &rows[i];
            assert(sorted[i as int] == row@);
            observations.push(
                ProjectObservation {
                    generation_id: row.generation_id,
                    origin_id: row.origin_id,
                    project_path: PathBuf::new(row.project_path.as_str()),
                    project_identity: row.project_identity.clone(),
                    target_identity: copy_identity(&row.target_identity),
                    boot_session_id: copy_text(&row.boot_session_id),
                    observed_at: from_epoch(row.observed_at),
                    authorized: row.authorized,
                    blocked_reason: copy_text(&row.blocked_reason),
                },
            );
            i += 1;
        }
        observations
    }

    /// Sets the identities of a project's observations that may be acted on to
    /// those that were seen again. Where there are none, nothing changes.
    pub fn mark_observation_reverified(&mut self, generation_id: i64, path: &PathBuf, identity: &ReviewedIdentity) -> (result:
        Result<(), StoreError>)
        ensures
            went_as(
                result,
                final(self)@,
                observations_reverified(old(self)@, generation_id, path@, *identity),
            ),
            result is Err ==> final(self)@ == old(self)@,
            consistent(old(self)@) ==> consistent(final(self)@),
    {
        let text = match path_to_string(path) {
            Ok(text) => text,
            Err(error) => return Err(error),
        };
        if !identity_can_be_stored(&identity.project) || !identity_can_be_stored(&identity.target) {
            return Err(StoreError::OutOfRange);
        }
        let valid = valid_newest(&self.discovery_generations, generation_id);
        let origins = &self.discovery_origins;
        let ghost before = self@;
        let wanted = |row: &ObservationRow| -> (is: bool)
            ensures
                is == (row@.project_path == text@ && row@.generation_id == generation_id && row@.authorized
                    && from_completed_origin(rows_view(origins@), row@) && valid),
        {
            row.project_path == text && row.generation_id == generation_id && row.authorized && of_completed_origin(
                origins,
                row,
            ) && valid
        };
        let ghost p = |row: ObservationModel|
            row.project_path == text@ && may_act_on(before, generation_id, row);
        if !any_row(&self.project_observations, wanted, Ghost(p)) {
            return Err(StoreError::NoAuthorizedObservation);
        }
        let change = |row: &ObservationRow| -> (changed: Option<ObservationRow>)
            ensures
                match changed {
                    Some(new) => row@.project_path == text@ && row@.generation_id == generation_id && row@.authorized
                        && from_completed_origin(rows_view(origins@), row@) && valid && new@ == reverified_row(
                        row@,
                        *identity,
                    ),
                    None => !(row@.project_path == text@ && row@.generation_id == generation_id && row@.authorized
                        && from_completed_origin(rows_view(origins@), row@) && valid),
                },
        {
            if row.project_path == text && row.generation_id == generation_id && row.authorized && of_completed_origin(
                origins,
                row,
            ) && valid {
                Some(
                    ObservationRow {
                        generation_id: row.generation_id,
                        origin_id: row.origin_id,
                        project_path: row.project_path.clone(),
                        project_identity: identity.project.clone(),
                        target_identity: Some(identity.target.clone()),
                        observed_at: row.observed_at,
                        authorized: row.authorized,
                        blocked_reason: copy_text(&row.blocked_reason),
                        boot_session_id: match &identity.boot_session {
                            Some(session) => Some(session.0.clone()),
                            None => None,
                        },
                    },
                )
            } else {
                None
            }
        };
        update_rows(
            &mut self.project_observations,
            change,
            Ghost(
                |row: ObservationModel|
                    if row.project_path == text@ && may_act_on(before, generation_id, row) {
                        reverified_row(row, *identity)
                    } else {
                        row
                    },
            ),
        );
        Ok(())
    }
}

/// An observation with identities that were seen again.
pub open spec fn reverified_row(row: ObservationModel, identity: ReviewedIdentity) -> ObservationModel {
    ObservationModel {
        project_identity: identity.project@,
        target_identity: Some(identity.target@),
        boot_session_id: session_text(identity.boot_session),
        ..row
    }
}

/// The store after the identities of a project have been seen again.
pub open spec fn observations_reverified(
    store: StoreModel,
    generation_id: i64,
    path: Seq<u8>,
    identity: ReviewedIdentity,
) -> Result<StoreModel, StoreFault> {
    let text = decode_utf8(path);
    if !valid_utf8(path) {
        Err(StoreFault::NotText(path))
    } else if !identity_fits(identity.project@) || !identity_fits(identity.target@) {
        Err(StoreFault::OutOfRange)
    } else if !some_row(
        store.project_observations,
        |row: ObservationModel| row.project_path == text && may_act_on(store, generation_id, row),
    ) {
        Err(StoreFault::NoAuthorizedObservation)
    } else {
        Ok(
            StoreModel {
                project_observations: store.project_observations.map_values(
                    |row: ObservationModel|
                        if row.project_path == text && may_act_on(store, generation_id, row) {
                            reverified_row(row, identity)
                        } else {
                            row
                        },
                ),
                ..store
            },
        )
    }
}

// ---------------------------------------------------------------------- laws

/// Whether two stores have the same generations.
pub open spec fn same_generations(a: StoreModel, b: StoreModel) -> bool {
    a.discovery_generations == b.discovery_generations && a.next_generation_id == b.next_generation_id
}

proof fn lemma_observations_keep_generations(
    store: StoreModel,
    generation_id: i64,
    origin_id: i64,
    boot_session_id: Option<String>,
    origin: OriginReconciliation,
    observations: Seq<ObservationReconciliation>,
)
    ensures
        observations_stored(store, generation_id, origin_id, boot_session_id, origin, observations) matches Ok(after)
            ==> same_generations(after, store),
    decreases observations.len(),
{
    if observations.len() > 0 {
        lemma_observations_keep_generations(
            store,
            generation_id,
            origin_id,
            boot_session_id,
            origin,
            observations.drop_last(),
        );
    }
}

proof fn lemma_origins_keep_generations(
    store: StoreModel,
    generation_id: i64,
    boot_session_id: Option<String>,
    origins: Seq<OriginReconciliation>,
)
    ensures
        origins_stored(store, generation_id, boot_session_id, origins) matches Ok(after) ==> same_generations(
            after,
            store,
        ),
    decreases origins.len(),
{
    if origins.len() > 0 {
        lemma_origins_keep_generations(store, generation_id, boot_session_id, origins.drop_last());
        match origins_stored(store, generation_id, boot_session_id, origins.drop_last()) {
            Ok(before) => {
                let origin = origins.last();
                match optional_path_text(origin.canonical_path) {
                    Ok(canonical) => {
                        lemma_observations_keep_generations(
                            StoreModel {
                                discovery_origins: before.discovery_origins.push(
                                    OriginModel {
                                        id: before.next_origin_id,
                                        generation_id,
                                        kind: origin.kind,
                                        configured_path: decode_utf8(origin.configured_path@),
                                        canonical_path: canonical,
                                        completed: origin.completed,
                                        error: optional_text(origin.error),
                                    },
                                ),
                                next_origin_id: (before.next_origin_id + 1) as i64,
                                ..before
                            },
                            generation_id,
                            before.next_origin_id,
                            boot_session_id,
                            origin,
                            origin.observations@,
                        );
                    },
                    Err(_) => {},
                }
            },
            Err(_) => {},
        }
    }
}

pub proof fn lemma_newest_is_one(rows: Seq<GenerationModel>)
    ensures
        newest_generation(rows) is None <==> rows.len() == 0,
        newest_generation(rows) matches Some(newest) ==> rows.contains(newest),
    decreases rows.len(),
{
    if rows.len() > 0 {
        lemma_newest_is_one(rows.drop_last());
        assert(rows[rows.len() - 1] == rows.last());
        match newest_generation(rows.drop_last()) {
            Some(best) => {
                let i = choose|i: int| 0 <= i < rows.drop_last().len() && rows.drop_last()[i] == best;
                assert(rows[i] == best);
            },
            None => {},
        }
    }
}

/// The row of a stored generation.
pub open spec fn new_generation(id: i64, created_at: i64, reconciliation: GenerationReconciliation) -> GenerationModel {
    GenerationModel {
        id,
        created_at,
        policy_hash: reconciliation.policy_hash@,
        boot_session_id: optional_text(reconciliation.boot_session_id),
        authority_valid: true,
    }
}

/// Storing a generation makes it the current one of its policy, and the only one that is
/// valid: under every other policy there is none.
pub proof fn stored_generation_alone_is_valid(
    store: StoreModel,
    created_at: i64,
    reconciliation: GenerationReconciliation,
)
    requires
        consistent(store),
        generation_stored(store, created_at, reconciliation) is Ok,
    ensures
        generation_stored(store, created_at, reconciliation) matches Ok(after) && {
            let rows = after.discovery_generations;
            &&& consistent(after)
            &&& current_generation_of(rows, reconciliation.policy_hash@) == Some(
                new_generation(store.next_generation_id, created_at, reconciliation),
            )
            &&& forall|hash: Seq<char>|
                hash != reconciliation.policy_hash@ ==> (#[trigger] current_generation_of(rows, hash)) is None
            &&& forall|i: int|
                0 <= i < rows.len() && (#[trigger] rows[i]).authority_valid ==> rows[i].id == store.next_generation_id
        },
{
    let id = store.next_generation_id;
    let old_rows = store.discovery_generations.map_values(|row: GenerationModel| revoked(row));
    let new = new_generation(id, created_at, reconciliation);
    let rows = old_rows.push(new);
    let start = StoreModel { discovery_generations: rows, next_generation_id: (id + 1) as i64, ..store };
    lemma_origins_keep_generations(start, id, reconciliation.boot_session_id, reconciliation.origins@);
    stored_generations_keep_consistency(store, created_at, reconciliation);
    assert(rows.drop_last() =~= old_rows);
    lemma_newest_is_one(old_rows);
    match newest_generation(old_rows) {
        Some(best) => {
            let i = choose|i: int| 0 <= i < old_rows.len() && old_rows[i] == best;
            assert(generation_numbers(store.discovery_generations)[i] < id);
        },
        None => {},
    }
    assert(newest_generation(rows) == Some(new));
}

/// Only what a completed origin of the newest, valid generation saw may be acted
/// on.
pub proof fn only_the_newest_generation_authorizes(store: StoreModel, generation_id: i64)
    ensures
        forall|i: int|
            0 <= i < actionable(store, generation_id).len() ==> may_act_on(
                store,
                generation_id,
                #[trigger] actionable(store, generation_id)[i],
            ),
        !is_valid_newest(store.discovery_generations, generation_id) ==> actionable(store, generation_id).len() == 0,
{
    broadcast use vstd::seq_lib::group_to_multiset_ensures;

    let p = |row: ObservationModel| may_act_on(store, generation_id, row);
    let less = |a: ObservationModel, b: ObservationModel| observation_before(a, b);
    let chosen = store.project_observations.filter(p);
    let sorted = actionable(store, generation_id);
    crate::store::table::sorting_keeps_the_values(chosen, less);
    assert forall|i: int| 0 <= i < sorted.len() implies may_act_on(store, generation_id, #[trigger] sorted[i]) by {
        let row = sorted[i];
        assert(sorted.contains(row));
        assert(sorted.to_multiset().count(row) > 0);
        assert(chosen.to_multiset().count(row) > 0);
        assert(chosen.contains(row));
        let k = choose|k: int| 0 <= k < chosen.len() && chosen[k] == row;
        store.project_observations.lemma_filter_pred(p, k);
    }
    if !is_valid_newest(store.discovery_generations, generation_id) && sorted.len() > 0 {
        assert(may_act_on(store, generation_id, sorted[0]));
    }
}

} // verus!
