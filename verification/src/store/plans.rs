//! Cleanup plans: made from a review of the current generation, executable for a
//! limited time, and few in number.

use crate::safety::ProjectReview;
use crate::store::codec::{
    columns_fault, decode_target, encode_target, review_of_columns, storable, target_columns, target_fault,
    target_is_read_back,
};
use crate::store::rows::{GenerationModel, GenerationRow, PlanModel, PlanRow, ReviewPlan, ReviewPlanTarget, TargetModel, TargetRow};
use crate::store::table::{any_row, find_row, push_row, retain_rows, rows_view, some_row};
use crate::store::{
    epoch_of, from_epoch, time_of, to_epoch, Store, StoreError, StoreFault, StoreModel, REVIEW_PLAN_RETENTION,
    REVIEW_PLAN_TTL_SECS,
};
use crate::text::text_equal;
use crate::time::SystemTime;
use crate::store::keys::{consistent, new_plans_keep_consistency, plan_numbers, pruned_plans_keep_consistency};
use vstd::prelude::*;

verus! {

/// Why a plan cannot be executed.
#[derive(Debug, PartialEq, Eq)]
pub enum PlanLoadError {
    Missing,
    Expired,
    PolicyMismatch,
    GenerationMismatch,
    Storage(String),
}

impl PlanLoadError {
    /// The error in words.
    pub fn message(&self) -> (text: String)
        ensures
            text@ == match self {
                PlanLoadError::Missing => "review plan does not exist"@,
                PlanLoadError::Expired => "review plan has expired"@,
                PlanLoadError::PolicyMismatch => "review plan policy does not match current policy"@,
                PlanLoadError::GenerationMismatch =>
                    "review plan generation is not the current discovery generation"@,
                PlanLoadError::Storage(message) => "review plan storage error: "@ + message@,
            },
    {
        match self {
            PlanLoadError::Missing => "review plan does not exist".to_owned(),
            PlanLoadError::Expired => "review plan has expired".to_owned(),
            PlanLoadError::PolicyMismatch => "review plan policy does not match current policy".to_owned(),
            PlanLoadError::GenerationMismatch =>
                "review plan generation is not the current discovery generation".to_owned(),
            PlanLoadError::Storage(message) => {
                let mut text = "review plan storage error: ".to_owned();
                text.append(message.as_str());
                text
            },
        }
    }
}

// --------------------------------------------------------------- generations

/// The generation with the greatest number, the later one of two equal.
pub open spec fn newest_generation(rows: Seq<GenerationModel>) -> Option<GenerationModel>
    decreases rows.len(),
{
    if rows.len() == 0 {
        None
    } else {
        match newest_generation(rows.drop_last()) {
            Some(best) => if best.id > rows.last().id {
                Some(best)
            } else {
                Some(rows.last())
            },
            None => Some(rows.last()),
        }
    }
}

/// Whether a generation is the newest one, valid, and of this policy.
pub open spec fn is_current(rows: Seq<GenerationModel>, policy_hash: Seq<char>, id: i64) -> bool {
    newest_generation(rows) matches Some(newest) && newest.id == id && newest.policy_hash == policy_hash
        && newest.authority_valid
}

/// The place of the newest generation.
pub fn newest_index(rows: &Vec<GenerationRow>) -> (found: Option<usize>)
    ensures
        match newest_generation(rows_view(rows@)) {
            Some(newest) => found matches Some(i) && i < rows@.len() && rows@[i as int]@ == newest,
            None => found is None,
        },
{
    let ghost all = rows_view(rows@);
    let mut best: Option<usize> = None;
    let mut i: usize = 0;
    while i < rows.len()
        invariant
            i <= rows.len(),
            all == rows_view(rows@),
            match newest_generation(all.take(i as int)) {
                Some(newest) => best matches Some(b) && b < i && rows@[b as int]@ == newest,
                None => best is None,
            },
        decreases rows.len() - i,
    {
        proof {
            assert(all.take(i + 1).drop_last() =~= all.take(i as int));
            assert(all.take(i + 1).last() == rows@[i as int]@);
        }
        match best {
            Some(b) => {
                if rows[b].id <= rows[i].id {
                    best = Some(i);
                }
            },
            None => {
                best = Some(i);
            },
        }
        i += 1;
    }
    assert(all.take(all.len() as int) =~= all);
    best
}

/// Whether a generation is the newest one, valid, and of this policy.
pub fn generation_is_current(rows: &Vec<GenerationRow>, policy_hash: &str, generation_id: i64) -> (current: bool)
    ensures
        current == is_current(rows_view(rows@), policy_hash@, generation_id),
{
    match newest_index(rows) {
        Some(i) => rows[i].id == generation_id && text_equal(rows[i].policy_hash.as_str(), policy_hash)
            && rows[i].authority_valid,
        None => false,
    }
}

// ------------------------------------------------------------------- pruning

/// Whether a plan rests on a generation that is valid and the newest.
pub open spec fn rests_on_current(plan: PlanModel, generations: Seq<GenerationModel>) -> bool {
    some_row(
        generations,
        |g: GenerationModel|
            g.id == plan.generation_id && g.policy_hash == plan.policy_hash && g.authority_valid && (
            newest_generation(generations) matches Some(newest) && newest.id == g.id),
    )
}

/// Whether plan `a` is newer than plan `b`: made later, or in the same second
/// under a greater number.
pub open spec fn newer(a: (i64, i64), b: (i64, i64)) -> bool {
    a.0 > b.0 || (a.0 == b.0 && a.1 > b.1)
}

/// The time and number of a plan.
pub open spec fn plan_key(plan: PlanModel) -> (i64, i64) {
    (plan.created_at, plan.id)
}

/// The times and numbers of plans.
pub open spec fn keys_of(plans: Seq<PlanModel>) -> Seq<(i64, i64)> {
    plans.map_values(|plan: PlanModel| plan_key(plan))
}

/// How many of the given times and numbers are newer than this one.
pub open spec fn newer_count(keys: Seq<(i64, i64)>, key: (i64, i64)) -> nat
    decreases keys.len(),
{
    if keys.len() == 0 {
        0
    } else {
        newer_count(keys.drop_last(), key) + if newer(keys.last(), key) {
            1nat
        } else {
            0nat
        }
    }
}

/// The plans that are retained: those with fewer newer ones than the limit.
pub open spec fn retained(plans: Seq<PlanModel>) -> Seq<PlanModel> {
    plans.filter(|plan: PlanModel| newer_count(keys_of(plans), plan_key(plan)) < REVIEW_PLAN_RETENTION)
}

/// The plans that are left at a time: not expired, resting on the current
/// generation, of the given authority where there is one, and few enough.
pub open spec fn pruned(
    plans: Seq<PlanModel>,
    generations: Seq<GenerationModel>,
    now: i64,
    authority: Option<(Seq<char>, i64)>,
) -> Seq<PlanModel> {
    let live = plans.filter(|plan: PlanModel| plan.expires_at > now && rests_on_current(plan, generations));
    retained(
        match authority {
            Some((hash, id)) => live.filter(|plan: PlanModel| plan.policy_hash == hash && plan.generation_id == id),
            None => live,
        },
    )
}

fn plan_rests_on_current(plan: &PlanRow, generations: &Vec<GenerationRow>) -> (rests: bool)
    ensures
        rests == rests_on_current(plan@, rows_view(generations@)),
{
    let ghost all = rows_view(generations@);
    let newest: i64 = match newest_index(generations) {
        Some(i) => generations[i].id,
        None => {
            assert(all.len() == 0) by {
                if all.len() > 0 {
                    assert(newest_generation(all) is Some);
                }
            }
            return false;
        },
    };
    let wanted = |g: &GenerationRow| -> (is: bool)
        ensures
            is == (g@.id == plan@.generation_id && g@.policy_hash == plan@.policy_hash && g@.authority_valid && (
            newest_generation(rows_view(generations@)) matches Some(n) && n.id == g@.id)),
    {
        g.id == plan.generation_id && g.policy_hash == plan.policy_hash && g.authority_valid && g.id == newest
    };
    any_row(
        generations,
        wanted,
        Ghost(
            |g: GenerationModel|
                g.id == plan@.generation_id && g.policy_hash == plan@.policy_hash && g.authority_valid && (
                newest_generation(all) matches Some(n) && n.id == g.id),
        ),
    )
}

fn plan_keys(plans: &Vec<PlanRow>) -> (keys: Vec<(i64, i64)>)
    ensures
        keys@ == keys_of(rows_view(plans@)),
{
    let mut keys: Vec<(i64, i64)> = Vec::new();
    let mut i: usize = 0;
    while i < plans.len()
        invariant
            i <= plans.len(),
            keys@.len() == i,
            forall|k: int| 0 <= k < i ==> #[trigger] keys@[k] == plan_key(plans@[k]@),
        decreases plans.len() - i,
    {
        keys.push((plans[i].created_at, plans[i].id));
        i += 1;
    }
    assert(keys@ =~= keys_of(rows_view(plans@)));
    keys
}

fn few_newer(keys: &Vec<(i64, i64)>, created_at: i64, id: i64) -> (few: bool)
    ensures
        few == (newer_count(keys@, (created_at, id)) < REVIEW_PLAN_RETENTION),
{
    let mut count: usize = 0;
    let mut i: usize = 0;
    assert(keys@.take(0) =~= Seq::empty());
    while i < keys.len()
        invariant
            i <= keys.len(),
            count <= i,
            count == newer_count(keys@.take(i as int), (created_at, id)),
        decreases keys.len() - i,
    {
        proof {
            assert(keys@.take(i + 1).drop_last() =~= keys@.take(i as int));
        }
        let key = keys[i];
        if key.0 > created_at || (key.0 == created_at && key.1 > id) {
            count += 1;
        }
        i += 1;
    }
    assert(keys@.take(keys@.len() as int) =~= keys@);
    count < REVIEW_PLAN_RETENTION
}

/// Keeps the newest plans up to the limit.
fn retain_newest(plans: &mut Vec<PlanRow>)
    ensures
        rows_view(final(plans)@) == retained(rows_view(old(plans)@)),
{
    let ghost all = rows_view(plans@);
    let keys = plan_keys(plans);
    let keep = |plan: &PlanRow| -> (is: bool)
        ensures
            is == (newer_count(keys@, plan_key(plan@)) < REVIEW_PLAN_RETENTION),
    {
        few_newer(&keys, plan.created_at, plan.id)
    };
    retain_rows(
        plans,
        keep,
        Ghost(|plan: PlanModel| newer_count(keys_of(all), plan_key(plan)) < REVIEW_PLAN_RETENTION),
    );
}

fn prune_plans(
    plans: &mut Vec<PlanRow>,
    generations: &Vec<GenerationRow>,
    now: i64,
    authority: Option<(&str, i64)>,
)
    ensures
        rows_view(final(plans)@) == pruned(
            rows_view(old(plans)@),
            rows_view(generations@),
            now,
            authority_view(authority),
        ),
{
    let ghost known = rows_view(generations@);
    let live = |plan: &PlanRow| -> (is: bool)
        ensures
            is == (plan@.expires_at > now && rests_on_current(plan@, rows_view(generations@))),
    {
        plan.expires_at > now && plan_rests_on_current(plan, generations)
    };
    retain_rows(
        plans,
        live,
        Ghost(|plan: PlanModel| plan.expires_at > now && rests_on_current(plan, known)),
    );
    match authority {
        Some((hash, id)) => {
            let own = |plan: &PlanRow| -> (is: bool)
                ensures
                    is == (plan@.policy_hash == hash@ && plan@.generation_id == id),
            {
                text_equal(plan.policy_hash.as_str(), hash) && plan.generation_id == id
            };
            retain_rows(
                plans,
                own,
                Ghost(|plan: PlanModel| plan.policy_hash == hash@ && plan.generation_id == id),
            );
        },
        None => {},
    }
    retain_newest(plans);
}

/// The contents of an authority.
pub open spec fn authority_view(authority: Option<(&str, i64)>) -> Option<(Seq<char>, i64)> {
    match authority {
        Some((hash, id)) => Some((hash@, id)),
        None => None,
    }
}

proof fn lemma_filter_shrinks(plans: Seq<PlanModel>, keep: spec_fn(PlanModel) -> bool)
    ensures
        plans.filter(keep).len() <= plans.len(),
{
    plans.lemma_filter_len(keep);
}

proof fn lemma_pruned_shrinks(
    plans: Seq<PlanModel>,
    generations: Seq<GenerationModel>,
    now: i64,
    authority: Option<(Seq<char>, i64)>,
)
    ensures
        pruned(plans, generations, now, authority).len() <= plans.len(),
{
    let live_keep = |plan: PlanModel| plan.expires_at > now && rests_on_current(plan, generations);
    let live = plans.filter(live_keep);
    lemma_filter_shrinks(plans, live_keep);
    match authority {
        Some((hash, id)) => {
            let keep = |plan: PlanModel| plan.policy_hash == hash && plan.generation_id == id;
            let own = live.filter(keep);
            lemma_filter_shrinks(live, keep);
            lemma_filter_shrinks(own, |plan: PlanModel| newer_count(keys_of(own), plan_key(plan)) < REVIEW_PLAN_RETENTION);
        },
        None => {
            lemma_filter_shrinks(live, |plan: PlanModel| newer_count(keys_of(live), plan_key(plan)) < REVIEW_PLAN_RETENTION);
        },
    }
}

// ---------------------------------------------------------- making and loading

/// Whether a plan is the one that a row stands for.
pub open spec fn plan_is(plan: ReviewPlan, row: PlanModel) -> bool {
    &&& plan.id == row.id
    &&& plan.created_at@ == time_of(row.created_at)
    &&& plan.expires_at@ == time_of(row.expires_at)
    &&& plan.policy_hash@ == row.policy_hash
    &&& plan.generation_id == row.generation_id
    &&& plan.coverage_incomplete == row.coverage_incomplete
    &&& plan.candidate_bytes == row.candidate_bytes
    &&& plan.targets@.len() == row.targets.len()
    &&& forall|i: int|
        0 <= i < row.targets.len() ==> review_of_columns(#[trigger] row.targets[i]) == Some(
            (plan.targets@[i].ordinal as i64, plan.targets@[i].review@),
        )
}

/// The row of a new plan.
pub open spec fn new_plan(
    id: i64,
    created_at: i64,
    policy_hash: Seq<char>,
    generation_id: i64,
    coverage_incomplete: bool,
    candidate_bytes: i64,
    reviews: Seq<ProjectReview>,
) -> PlanModel {
    PlanModel {
        id,
        created_at,
        expires_at: (created_at + REVIEW_PLAN_TTL_SECS) as i64,
        policy_hash,
        generation_id,
        coverage_incomplete,
        candidate_bytes,
        targets: Seq::new(reviews.len(), |i: int| target_columns(i as i64, reviews[i]@)),
    }
}

/// Whether every review can be stored.
pub open spec fn all_storable(reviews: Seq<ProjectReview>) -> bool {
    forall|i: int| 0 <= i < reviews.len() ==> storable((#[trigger] reviews[i])@)
}

/// Whether a plan made at this time can be stored: its times and its numbers fit.
pub open spec fn plan_fits(created_at: int, candidate_bytes: i64) -> bool {
    &&& epoch_of(created_at) matches Some(secs)
    &&& secs + REVIEW_PLAN_TTL_SECS <= i64::MAX
    &&& candidate_bytes >= 0
}

/// Why reviews cannot be stored as targets, from one of them on: what is wrong with
/// the first that cannot be stored.
pub open spec fn targets_fault(reviews: Seq<ProjectReview>, from: int) -> Option<StoreFault>
    decreases reviews.len() - from,
{
    if from >= reviews.len() {
        None
    } else {
        match target_fault(from, reviews[from]@) {
            Some(fault) => Some(fault),
            None => targets_fault(reviews, from + 1),
        }
    }
}

fn encode_targets(reviews: &Vec<ProjectReview>) -> (result: Result<Vec<TargetRow>, StoreError>)
    requires
        reviews@.len() <= i64::MAX,
    ensures
        result is Ok <==> all_storable(reviews@),
        match targets_fault(reviews@, 0) {
            Some(fault) => result matches Err(error) && error@ == fault,
            None => result matches Ok(rows) && rows_view(rows@) == Seq::new(
                reviews@.len(),
                |i: int| target_columns(i as i64, reviews@[i]@),
            ),
        },
{
    let mut rows: Vec<TargetRow> = Vec::new();
    let mut i: usize = 0;
    while i < reviews.len()
        invariant
            i <= reviews.len(),
            reviews@.len() <= i64::MAX,
            rows@.len() == i,
            targets_fault(reviews@, 0) == targets_fault(reviews@, i as int),
            forall|k: int| 0 <= k < i ==> storable((#[trigger] reviews@[k])@),
            forall|k: int| 0 <= k < i ==> (#[trigger] rows@[k])@ == target_columns(k as i64, reviews@[k]@),
        decreases reviews.len() - i,
    {
        match encode_target(i, &reviews[i]) {
            Ok(row) => rows.push(row),
            Err(error) => {
                assert(!storable(reviews@[i as int]@));
                return Err(error);
            },
        }
        i += 1;
    }
    assert(rows_view(rows@) =~= Seq::new(reviews@.len(), |i: int| target_columns(i as i64, reviews@[i]@)));
    Ok(rows)
}

/// What is said of targets, from one of them on, not all of which stand for a
/// review: what is wrong with the first that does not.
pub open spec fn unreadable_text(targets: Seq<TargetModel>, from: int) -> Option<Seq<char>>
    decreases targets.len() - from,
{
    if from >= targets.len() {
        None
    } else if review_of_columns(targets[from]) is None {
        Some(columns_fault(targets[from]))
    } else {
        unreadable_text(targets, from + 1)
    }
}

proof fn lemma_readable(targets: Seq<TargetModel>, from: int)
    requires
        0 <= from,
        forall|i: int| 0 <= i < targets.len() ==> review_of_columns(#[trigger] targets[i]) is Some,
    ensures
        unreadable_text(targets, from) is None,
    decreases targets.len() - from,
{
    if from < targets.len() {
        lemma_readable(targets, from + 1);
    }
}

fn decode_targets(rows: &Vec<TargetRow>) -> (targets: Result<Vec<ReviewPlanTarget>, String>)
    ensures
        match unreadable_text(rows_view(rows@), 0) {
            Some(said) => targets matches Err(text) && text@ == said,
            None => targets matches Ok(list) && list@.len() == rows@.len() && forall|i: int|
                0 <= i < rows@.len() ==> review_of_columns(#[trigger] rows_view(rows@)[i]) == Some(
                    (list@[i].ordinal as i64, list@[i].review@),
                ),
        },
{
    let ghost all = rows_view(rows@);
    let mut targets: Vec<ReviewPlanTarget> = Vec::new();
    let mut i: usize = 0;
    while i < rows.len()
        invariant
            i <= rows.len(),
            all == rows_view(rows@),
            targets@.len() == i,
            unreadable_text(all, 0) == unreadable_text(all, i as int),
            forall|k: int|
                0 <= k < i ==> review_of_columns(#[trigger] all[k]) == Some(
                    (targets@[k].ordinal as i64, targets@[k].review@),
                ),
        decreases rows.len() - i,
    {
        assert(all[i as int] == rows@[i as int]@);
        match decode_target(&rows[i]) {
            Ok(target) => targets.push(target),
            Err(text) => return Err(text),
        }
        i += 1;
    }
    Ok(targets)
}

fn copy_targets(reviews: &Vec<ProjectReview>) -> (targets: Vec<ReviewPlanTarget>)
    ensures
        targets@.len() == reviews@.len(),
        forall|i: int|
            0 <= i < reviews@.len() ==> (#[trigger] targets@[i]).ordinal == i && targets@[i].review@ == reviews@[i]@,
{
    let mut targets: Vec<ReviewPlanTarget> = Vec::new();
    let mut i: usize = 0;
    while i < reviews.len()
        invariant
            i <= reviews.len(),
            targets@.len() == i,
            forall|k: int|
                0 <= k < i ==> (#[trigger] targets@[k]).ordinal == k && targets@[k].review@ == reviews@[k]@,
        decreases reviews.len() - i,
    {
        targets.push(ReviewPlanTarget { ordinal: i, review: reviews[i].clone() });
        i += 1;
    }
    targets
}

/// The store after a plan has been made.
pub open spec fn with_new_plan(store: StoreModel, plan: PlanModel) -> StoreModel {
    StoreModel {
        review_plans: retained(
            pruned(
                store.review_plans,
                store.discovery_generations,
                plan.created_at,
                Some((plan.policy_hash, plan.generation_id)),
            ).push(plan),
        ),
        next_plan_id: (store.next_plan_id + 1) as i64,
        ..store
    }
}

/// The first plan with a number.
pub open spec fn plan_with_id(plans: Seq<PlanModel>, id: i64) -> Option<PlanModel>
    decreases plans.len(),
{
    if plans.len() == 0 {
        None
    } else if plans[0].id == id {
        Some(plans[0])
    } else {
        plan_with_id(plans.drop_first(), id)
    }
}

proof fn lemma_plan_with_id(plans: Seq<PlanModel>, id: i64, i: int)
    requires
        0 <= i <= plans.len(),
        forall|k: int| 0 <= k < i ==> (#[trigger] plans[k]).id != id,
    ensures
        i < plans.len() && plans[i].id == id ==> plan_with_id(plans, id) == Some(plans[i]),
        i == plans.len() ==> plan_with_id(plans, id) is None,
    decreases i,
{
    if i > 0 {
        assert(plans[0].id != id);
        assert forall|k: int| 0 <= k < i - 1 implies (#[trigger] plans.drop_first()[k]).id != id by {
            assert(plans[k + 1].id != id);
        }
        lemma_plan_with_id(plans.drop_first(), id, i - 1);
    }
}

/// What loading a plan gives: the reasons against it in the order in which they
/// are looked for, or the plan.
pub enum LoadModel {
    Unreadable(Seq<char>),
    Missing,
    Expired,
    PolicyMismatch,
    GenerationMismatch,
    Loaded(PlanModel),
}

/// What loading a plan gives.
pub open spec fn load_of(
    store: StoreModel,
    id: i64,
    now: int,
    policy_hash: Seq<char>,
    generation_id: i64,
) -> LoadModel {
    match plan_with_id(store.review_plans, id) {
        _ if now < 0 => LoadModel::Unreadable("second time provided was later than self"@),
        None => LoadModel::Missing,
        Some(plan) => if let Some(text) = unreadable_text(plan.targets, 0) {
            LoadModel::Unreadable(text)
        } else if time_of(plan.expires_at) <= now {
            LoadModel::Expired
        } else if plan.policy_hash != policy_hash {
            LoadModel::PolicyMismatch
        } else if plan.generation_id != generation_id || !is_current(
            store.discovery_generations,
            policy_hash,
            generation_id,
        ) {
            LoadModel::GenerationMismatch
        } else {
            LoadModel::Loaded(plan)
        },
    }
}

impl Store {
    /// Makes a plan of the reviewed projects of the current generation, after
    /// pruning the plans that are void. A store that refuses is left as it was.
    pub fn create_review_plan(
        &mut self,
        created_at: SystemTime,
        policy_hash: &str,
        generation_id: i64,
        coverage_incomplete: bool,
        candidate_bytes: i64,
        reviews: &Vec<ProjectReview>,
    ) -> (result: Result<ReviewPlan, StoreError>)
        requires
            old(self).next_plan_id < i64::MAX,
            reviews@.len() <= i64::MAX,
        ensures
            result is Ok <==> plan_fits(created_at@, candidate_bytes) && is_current(
                old(self)@.discovery_generations,
                policy_hash@,
                generation_id,
            ) && all_storable(reviews@),
            match result {
                Ok(plan) => {
                    let row = new_plan(
                        old(self).next_plan_id,
                        epoch_of(created_at@)->0,
                        policy_hash@,
                        generation_id,
                        coverage_incomplete,
                        candidate_bytes,
                        reviews@,
                    );
                    &&& plan_is(plan, row)
                    &&& final(self)@ == with_new_plan(old(self)@, row)
                },
                Err(error) => {
                    &&& final(self)@ == old(self)@
                    &&& match epoch_of(created_at@) {
                        None => error == StoreError::BeforeEpoch,
                        Some(secs) => if secs + REVIEW_PLAN_TTL_SECS > i64::MAX {
                            error == StoreError::OutOfRange
                        } else if !is_current(
                            old(self)@.discovery_generations,
                            policy_hash@,
                            generation_id,
                        ) {
                            error == StoreError::NotCurrentGeneration
                        } else if candidate_bytes < 0 {
                            error == StoreError::OutOfRange
                        } else {
                            targets_fault(reviews@, 0) == Some(error@)
                        },
                    }
                },
            },
            consistent(old(self)@) ==> consistent(final(self)@),
    {
        proof {
            if consistent(self@) {
                new_plans_keep_consistency(
                    self@,
                    new_plan(
                        self.next_plan_id,
                        epoch_of(created_at@)->0,
                        policy_hash@,
                        generation_id,
                        coverage_incomplete,
                        candidate_bytes,
                        reviews@,
                    ),
                );
            }
        }
        let created: i64 = match to_epoch(created_at) {
            Ok(secs) => secs,
            Err(error) => return Err(error),
        };
        if created > i64::MAX - REVIEW_PLAN_TTL_SECS as i64 {
            return Err(StoreError::OutOfRange);
        }
        let expires: i64 = created + REVIEW_PLAN_TTL_SECS as i64;
        if !generation_is_current(&self.discovery_generations, policy_hash, generation_id) {
            return Err(StoreError::NotCurrentGeneration);
        }
        if candidate_bytes < 0 {
            return Err(StoreError::OutOfRange);
        }
        let rows = match encode_targets(reviews) {
            Ok(rows) => rows,
            Err(error) => return Err(error),
        };
        let id: i64 = self.next_plan_id;
        let ghost before = self@;
        let ghost columns = rows_view(rows@);
        prune_plans(
            &mut self.review_plans,
            &self.discovery_generations,
            created,
            Some((policy_hash, generation_id)),
        );
        push_row(
            &mut self.review_plans,
            PlanRow {
                id,
                created_at: created,
                expires_at: expires,
                policy_hash: policy_hash.to_owned(),
                generation_id,
                coverage_incomplete,
                candidate_bytes,
                targets: rows,
            },
        );
        retain_newest(&mut self.review_plans);
        self.next_plan_id = id + 1;
        let targets = copy_targets(reviews);
        proof {
            let row = new_plan(
                id,
                created,
                policy_hash@,
                generation_id,
                coverage_incomplete,
                candidate_bytes,
                reviews@,
            );
            assert(columns =~= row.targets);
            assert forall|i: int| 0 <= i < row.targets.len() implies review_of_columns(#[trigger] row.targets[i])
                == Some((targets@[i].ordinal as i64, targets@[i].review@)) by {
                assert(storable(reviews@[i]@));
                target_is_read_back(i as i64, reviews@[i]@);
            }
        }
        Ok(
            ReviewPlan {
                id,
                created_at: from_epoch(created),
                expires_at: from_epoch(expires),
                policy_hash: policy_hash.to_owned(),
                generation_id,
                coverage_incomplete,
                candidate_bytes,
                targets,
            },
        )
    }

    /// Loads a plan for execution, and prunes the plans that are void.
    pub fn load_review_plan(
        &mut self,
        id: i64,
        now: SystemTime,
        current_policy_hash: &str,
        current_generation_id: i64,
    ) -> (result: Result<ReviewPlan, PlanLoadError>)
        ensures
            match load_of(old(self)@, id, now@, current_policy_hash@, current_generation_id) {
                LoadModel::Unreadable(said) => (result matches Err(PlanLoadError::Storage(text)) && text@ == said)
                    && final(self)@ == old(self)@,
                LoadModel::Missing => result == Err::<ReviewPlan, PlanLoadError>(PlanLoadError::Missing),
                LoadModel::Expired => result == Err::<ReviewPlan, PlanLoadError>(PlanLoadError::Expired),
                LoadModel::PolicyMismatch => result == Err::<ReviewPlan, PlanLoadError>(
                    PlanLoadError::PolicyMismatch,
                ),
                LoadModel::GenerationMismatch => result == Err::<ReviewPlan, PlanLoadError>(
                    PlanLoadError::GenerationMismatch,
                ),
                LoadModel::Loaded(row) => result matches Ok(plan) && plan_is(plan, row),
            },
            !(load_of(old(self)@, id, now@, current_policy_hash@, current_generation_id) is Unreadable) ==> final(self)@
                == (StoreModel {
                review_plans: pruned(
                    old(self)@.review_plans,
                    old(self)@.discovery_generations,
                    epoch_of(now@)->0,
                    Some((current_policy_hash@, current_generation_id)),
                ),
                ..old(self)@
            }),
            consistent(old(self)@) ==> consistent(final(self)@),
    {
        proof {
            if consistent(self@) {
                pruned_plans_keep_consistency(
                    self@,
                    epoch_of(now@)->0,
                    Some((current_policy_hash@, current_generation_id)),
                );
            }
        }
        let now_epoch: i64 = match to_epoch(now) {
            Ok(secs) => secs,
            Err(_) => return Err(PlanLoadError::Storage("second time provided was later than self".to_owned())),
        };
        let ghost plans = rows_view(self.review_plans@);
        let wanted = |plan: &PlanRow| -> (is: bool)
            ensures
                is == (plan@.id == id),
        {
            plan.id == id
        };
        let found = find_row(&self.review_plans, wanted, Ghost(|plan: PlanModel| plan.id == id));
        let result = match found {
            None => {
                proof {
                    assert forall|k: int| 0 <= k < plans.len() implies (#[trigger] plans[k]).id != id by {
                        let p = |plan: PlanModel| plan.id == id;
                        assert(!p(plans[k]));
                    }
                    lemma_plan_with_id(plans, id, plans.len() as int);
                }
                Err(PlanLoadError::Missing)
            },
            Some(i) => {
                let row = &self.review_plans[i];
                proof {
                    let p = |plan: PlanModel| plan.id == id;
                    assert forall|k: int| 0 <= k < i implies (#[trigger] plans[k]).id != id by {
                        assert(!p(plans[k]));
                    }
                    assert(p(plans[i as int]));
                    lemma_plan_with_id(plans, id, i as int);
                    assert(plans[i as int] == row@);
                }
                let targets = match decode_targets(&row.targets) {
                    Ok(targets) => targets,
                    Err(text) => return Err(PlanLoadError::Storage(text)),
                };
                let expires_at = from_epoch(row.expires_at);
                if !now.is_before(&expires_at) {
                    Err(PlanLoadError::Expired)
                } else if !text_equal(row.policy_hash.as_str(), current_policy_hash) {
                    Err(PlanLoadError::PolicyMismatch)
                } else if row.generation_id != current_generation_id || !generation_is_current(
                    &self.discovery_generations,
                    current_policy_hash,
                    current_generation_id,
                ) {
                    Err(PlanLoadError::GenerationMismatch)
                } else {
                    Ok(
                        ReviewPlan {
                            id: row.id,
                            created_at: from_epoch(row.created_at),
                            expires_at,
                            policy_hash: row.policy_hash.clone(),
                            generation_id: row.generation_id,
                            coverage_incomplete: row.coverage_incomplete,
                            candidate_bytes: row.candidate_bytes,
                            targets,
                        },
                    )
                }
            },
        };
        prune_plans(
            &mut self.review_plans,
            &self.discovery_generations,
            now_epoch,
            Some((current_policy_hash, current_generation_id)),
        );
        result
    }

    /// Removes the plans that are void, and says how many.
    pub fn prune_review_plans(&mut self, now: SystemTime, current_authority: Option<(&str, i64)>) -> (result: Result<
        usize,
        StoreError,
    >)
        ensures
            match epoch_of(now@) {
                None => result == Err::<usize, StoreError>(StoreError::BeforeEpoch) && final(self)@ == old(self)@,
                Some(secs) => {
                    let left = pruned(
                        old(self)@.review_plans,
                        old(self)@.discovery_generations,
                        secs,
                        authority_view(current_authority),
                    );
                    &&& final(self)@ == (StoreModel { review_plans: left, ..old(self)@ })
                    &&& result == Ok::<usize, StoreError>((old(self)@.review_plans.len() - left.len()) as usize)
                },
            },
            consistent(old(self)@) ==> consistent(final(self)@),
    {
        proof {
            if consistent(self@) {
                pruned_plans_keep_consistency(self@, epoch_of(now@)->0, authority_view(current_authority));
            }
        }
        let now_epoch: i64 = match to_epoch(now) {
            Ok(secs) => secs,
            Err(error) => return Err(error),
        };
        let before: usize = self.review_plans.len();
        proof {
            lemma_pruned_shrinks(
                self@.review_plans,
                self@.discovery_generations,
                now_epoch,
                authority_view(current_authority),
            );
        }
        prune_plans(&mut self.review_plans, &self.discovery_generations, now_epoch, current_authority);
        Ok(before - self.review_plans.len())
    }
}

// ---------------------------------------------------------------------- laws

/// Whether no two plans have one number.
pub open spec fn distinct_plans(plans: Seq<PlanModel>) -> bool {
    forall|i: int, j: int| 0 <= i < j < plans.len() ==> (#[trigger] plans[i]).id != (#[trigger] plans[j]).id
}

/// The oldest of the first `n` plans that are to be kept.
proof fn oldest_kept(plans: Seq<PlanModel>, keep: spec_fn(PlanModel) -> bool, n: int) -> (oldest: int)
    requires
        0 <= n <= plans.len(),
        distinct_plans(plans),
        exists|i: int| 0 <= i < n && keep(#[trigger] plans[i]),
    ensures
        0 <= oldest < n,
        keep(plans[oldest]),
        forall|i: int|
            0 <= i < n && i != oldest && keep(#[trigger] plans[i]) ==> newer(
                plan_key(plans[i]),
                plan_key(plans[oldest]),
            ),
    decreases n,
{
    if exists|i: int| 0 <= i < n - 1 && keep(#[trigger] plans[i]) {
        let before = oldest_kept(plans, keep, n - 1);
        if keep(plans[n - 1]) && newer(plan_key(plans[before]), plan_key(plans[n - 1])) {
            n - 1
        } else {
            before
        }
    } else {
        n - 1
    }
}

proof fn lemma_kept_bound(plans: Seq<PlanModel>, keep: spec_fn(PlanModel) -> bool, oldest: int, n: int)
    requires
        0 <= n <= plans.len(),
        0 <= oldest < plans.len(),
        forall|i: int|
            0 <= i < plans.len() && i != oldest && keep(#[trigger] plans[i]) ==> newer(
                plan_key(plans[i]),
                plan_key(plans[oldest]),
            ),
    ensures
        plans.take(n).filter(keep).len() <= newer_count(keys_of(plans).take(n), plan_key(plans[oldest])) + (if oldest
            < n {
            1int
        } else {
            0int
        }),
    decreases n,
{
    let keys = keys_of(plans);
    if n > 0 {
        lemma_kept_bound(plans, keep, oldest, n - 1);
        assert(plans.take(n) =~= plans.take(n - 1).push(plans[n - 1]));
        plans.take(n - 1).lemma_filter_push(plans[n - 1], keep);
        assert(keys.take(n).drop_last() =~= keys.take(n - 1));
        assert(keys.take(n).last() == plan_key(plans[n - 1]));
        lemma_newer_irreflexive(plan_key(plans[oldest]));
    } else {
        assert(plans.take(0).filter(keep).len() == 0) by {
            plans.take(0).lemma_filter_len(keep);
        }
    }
}

proof fn lemma_newer_irreflexive(key: (i64, i64))
    ensures
        !newer(key, key),
{
}

/// No more plans with different numbers are retained than the limit.
pub proof fn lemma_retention(plans: Seq<PlanModel>)
    requires
        distinct_plans(plans),
    ensures
        retained(plans).len() <= REVIEW_PLAN_RETENTION,
{
    let keys = keys_of(plans);
    let keep = |plan: PlanModel| newer_count(keys, plan_key(plan)) < REVIEW_PLAN_RETENTION;
    let kept = plans.filter(keep);
    if kept.len() > 0 {
        plans.lemma_filter_pred(keep, 0);
        broadcast use vstd::seq_lib::group_filter_ensures;
        let first = kept[0];
        assert(plans.contains(first)) by {
            plans.lemma_filter_contains_rev(keep, first);
        }
        let at = choose|i: int| 0 <= i < plans.len() && plans[i] == first;
        assert(keep(plans[at]));
        let oldest = oldest_kept(plans, keep, plans.len() as int);
        lemma_kept_bound(plans, keep, oldest, plans.len() as int);
        assert(plans.take(plans.len() as int) =~= plans);
        assert(keys.take(plans.len() as int) =~= keys);
    }
}

proof fn lemma_plan_with_id_in_filter(plans: Seq<PlanModel>, keep: spec_fn(PlanModel) -> bool, id: i64)
    requires
        plan_with_id(plans, id) matches Some(plan) ==> keep(plan),
    ensures
        plan_with_id(plans.filter(keep), id) == plan_with_id(plans, id),
    decreases plans.len(),
{
    if plans.len() == 0 {
        assert(plans.filter(keep) =~= plans) by {
            plans.lemma_filter_len(keep);
        }
    } else {
        let rest = plans.drop_first();
        assert(plans =~= seq![plans[0]] + rest);
        rest.lemma_filter_prepend(plans[0], keep);
        let kept = rest.filter(keep);
        if plans[0].id == id {
            assert(keep(plans[0]));
            assert(plans.filter(keep) =~= seq![plans[0]] + kept);
            assert(plans.filter(keep)[0] == plans[0]);
        } else {
            lemma_plan_with_id_in_filter(rest, keep, id);
            if keep(plans[0]) {
                assert(plans.filter(keep) =~= seq![plans[0]] + kept);
                assert((seq![plans[0]] + kept).drop_first() =~= kept);
            } else {
                assert(plans.filter(keep) =~= kept);
            }
        }
    }
}

proof fn lemma_filter_numbers(plans: Seq<PlanModel>, keep: spec_fn(PlanModel) -> bool, bound: i64)
    requires
        forall|i: int| 0 <= i < plans.len() ==> (#[trigger] plans[i]).id < bound,
    ensures
        forall|i: int| 0 <= i < plans.filter(keep).len() ==> (#[trigger] plans.filter(keep)[i]).id < bound,
{
    assert forall|i: int| 0 <= i < plans.filter(keep).len() implies (#[trigger] plans.filter(keep)[i]).id < bound by {
        let plan = plans.filter(keep)[i];
        assert(plans.contains(plan)) by {
            plans.lemma_filter_contains_rev(keep, plan);
        }
    }
}

/// A plan that was made can be loaded as it was made until it expires, as long as
/// its generation stays current: a read gives back what was written. The one
/// plan left out is one that is not retained, since twenty plans are newer.
pub proof fn created_plan_is_loaded_back(store: StoreModel, plan: PlanModel, reviews: Seq<ProjectReview>, now: int)
    requires
        consistent(store),
        plan.id == store.next_plan_id,
        plan.created_at >= 0,
        plan.created_at + REVIEW_PLAN_TTL_SECS <= i64::MAX,
        reviews.len() <= i64::MAX,
        reviews.len() <= usize::MAX,
        all_storable(reviews),
        plan == new_plan(
            plan.id,
            plan.created_at,
            plan.policy_hash,
            plan.generation_id,
            plan.coverage_incomplete,
            plan.candidate_bytes,
            reviews,
        ),
        is_current(store.discovery_generations, plan.policy_hash, plan.generation_id),
        newer_count(
            keys_of(
                pruned(
                    store.review_plans,
                    store.discovery_generations,
                    plan.created_at,
                    Some((plan.policy_hash, plan.generation_id)),
                ).push(plan),
            ),
            plan_key(plan),
        ) < REVIEW_PLAN_RETENTION,
        0 <= now < time_of(plan.created_at) + REVIEW_PLAN_TTL_SECS * 1_000_000_000,
    ensures
        load_of(with_new_plan(store, plan), plan.id, now, plan.policy_hash, plan.generation_id) == LoadModel::Loaded(
            plan,
        ),
        forall|i: int|
            0 <= i < reviews.len() ==> review_of_columns(#[trigger] plan.targets[i]) == Some((i as i64, reviews[i]@)),
{
    let generations = store.discovery_generations;
    assert forall|i: int| 0 <= i < store.review_plans.len() implies (#[trigger] store.review_plans[i]).id < plan.id by {
        assert(plan_numbers(store.review_plans)[i] < store.next_plan_id);
    }
    let live_keep = |p: PlanModel| p.expires_at > plan.created_at && rests_on_current(p, generations);
    let own_keep = |p: PlanModel| p.policy_hash == plan.policy_hash && p.generation_id == plan.generation_id;
    let live = store.review_plans.filter(live_keep);
    let own = live.filter(own_keep);
    let first_keep = |p: PlanModel| newer_count(keys_of(own), plan_key(p)) < REVIEW_PLAN_RETENTION;
    let old_plans = own.filter(first_keep);
    lemma_filter_numbers(store.review_plans, live_keep, plan.id);
    lemma_filter_numbers(live, own_keep, plan.id);
    lemma_filter_numbers(own, first_keep, plan.id);
    let all = old_plans.push(plan);
    assert(all == pruned(
        store.review_plans,
        generations,
        plan.created_at,
        Some((plan.policy_hash, plan.generation_id)),
    ).push(plan));
    assert forall|k: int| 0 <= k < all.len() - 1 implies (#[trigger] all[k]).id != plan.id by {
        assert(all[k] == old_plans[k]);
    }
    lemma_plan_with_id(all, plan.id, all.len() - 1);
    let keep = |p: PlanModel| newer_count(keys_of(all), plan_key(p)) < REVIEW_PLAN_RETENTION;
    lemma_plan_with_id_in_filter(all, keep, plan.id);
    assert forall|i: int| 0 <= i < reviews.len() implies review_of_columns(#[trigger] plan.targets[i]) == Some(
        (i as i64, reviews[i]@),
    ) by {
        assert(storable(reviews[i]@));
        target_is_read_back(i as i64, reviews[i]@);
    }
    assert forall|i: int| 0 <= i < plan.targets.len() implies review_of_columns(#[trigger] plan.targets[i]) is Some by {
        assert(plan.targets[i] == target_columns(i as i64, reviews[i]@));
        assert(storable(reviews[i]@));
        target_is_read_back(i as i64, reviews[i]@);
    }
    lemma_readable(plan.targets, 0);
}

/// A plan is refused from the end of its time on, under any other policy, and
/// once another generation is current.
pub proof fn void_plans_are_refused(store: StoreModel, id: i64, now: int, policy_hash: Seq<char>, generation_id: i64)
    requires
        load_of(store, id, now, policy_hash, generation_id) is Loaded,
    ensures
        ({
            let plan = load_of(store, id, now, policy_hash, generation_id)->Loaded_0;
            &&& plan_with_id(store.review_plans, id) == Some(plan)
            &&& now < time_of(plan.expires_at)
            &&& plan.policy_hash == policy_hash
            &&& plan.generation_id == generation_id
            &&& is_current(store.discovery_generations, policy_hash, generation_id)
        }),
{
}

/// Pruning leaves only plans that were there, that have not expired, and that
/// rest on the current generation.
pub proof fn pruning_only_removes(
    plans: Seq<PlanModel>,
    generations: Seq<GenerationModel>,
    now: i64,
    authority: Option<(Seq<char>, i64)>,
    plan: PlanModel,
)
    requires
        pruned(plans, generations, now, authority).contains(plan),
    ensures
        plans.contains(plan),
        plan.expires_at > now,
        rests_on_current(plan, generations),
        authority matches Some((hash, id)) ==> plan.policy_hash == hash && plan.generation_id == id,
{
    let live_keep = |p: PlanModel| p.expires_at > now && rests_on_current(p, generations);
    let live = plans.filter(live_keep);
    match authority {
        Some((hash, id)) => {
            let own_keep = |p: PlanModel| p.policy_hash == hash && p.generation_id == id;
            let own = live.filter(own_keep);
            let keep = |p: PlanModel| newer_count(keys_of(own), plan_key(p)) < REVIEW_PLAN_RETENTION;
            own.lemma_filter_contains_rev(keep, plan);
            live.lemma_filter_contains_rev(own_keep, plan);
            let i = choose|i: int| 0 <= i < own.len() && own[i] == plan;
            live.lemma_filter_pred(own_keep, i);
        },
        None => {
            let keep = |p: PlanModel| newer_count(keys_of(live), plan_key(p)) < REVIEW_PLAN_RETENTION;
            live.lemma_filter_contains_rev(keep, plan);
        },
    }
    plans.lemma_filter_contains_rev(live_keep, plan);
    let i = choose|i: int| 0 <= i < live.len() && live[i] == plan;
    plans.lemma_filter_pred(live_keep, i);
}

} // verus!
