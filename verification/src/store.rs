//! The durable state of the tool, table by table.

use crate::path::PathBuf;
use crate::store::rows::{
    ErrorModel, ErrorRow, EventModel, EventRow, FailureModel, FailureRow, GenerationModel, GenerationRow, LinkedModel,
    LinkedRow, ObservationModel, ObservationRow, OriginModel, OriginRow, PlanModel, PlanRow, ProjectModel, ProjectRow,
    RunRow, SchedulerRow, StatusModel, StatusRow,
};
use crate::store::table::rows_view;
use crate::time::SystemTime;
use crate::store::keys::consistent;
use vstd::prelude::*;
use vstd::utf8::*;

pub mod blocking;
pub mod codec;
pub mod copy;
pub mod generations;
pub mod history;
pub mod keys;
pub mod laws;
pub mod linking;
pub mod migrate;
pub mod publication;
pub mod plans;
pub mod projects;
pub mod readback;
pub mod record;
pub mod renaming;
pub mod rows;
pub mod scheduler;
pub mod sorting;
pub mod standing;
pub mod statistics;
pub mod table;
pub mod upgrade;
pub mod worktrees;

verus! {

/// The version of the schema that the tables have.
pub const SCHEMA_VERSION: i64 = 13;

/// How many plans are retained.
pub const REVIEW_PLAN_RETENTION: usize = 20;

/// How long a plan can be executed, in seconds.
pub const REVIEW_PLAN_TTL_SECS: u64 = 1800;

/// The state that outlives a process.
#[derive(Debug)]
pub struct Store {
    pub projects: Vec<ProjectRow>,
    pub runs: Vec<RunRow>,
    pub clean_events: Vec<EventRow>,
    pub errors: Vec<ErrorRow>,
    pub review_status: Option<StatusRow>,
    pub scheduler_state: Option<SchedulerRow>,
    pub linked_worktrees: Vec<LinkedRow>,
    pub worktree_discovery_failures: Vec<FailureRow>,
    pub discovery_generations: Vec<GenerationRow>,
    pub discovery_origins: Vec<OriginRow>,
    pub project_observations: Vec<ObservationRow>,
    pub review_plans: Vec<PlanRow>,
    pub schema_version: i64,
    pub next_run_id: i64,
    pub next_event_id: i64,
    pub next_error_id: i64,
    pub next_generation_id: i64,
    pub next_origin_id: i64,
    pub next_plan_id: i64,
}

/// The contents of the store.
pub struct StoreModel {
    pub projects: Seq<ProjectModel>,
    pub runs: Seq<RunRow>,
    pub clean_events: Seq<EventModel>,
    pub errors: Seq<ErrorModel>,
    pub review_status: Option<StatusModel>,
    pub scheduler_state: Option<SchedulerRow>,
    pub linked_worktrees: Seq<LinkedModel>,
    pub worktree_discovery_failures: Seq<FailureModel>,
    pub discovery_generations: Seq<GenerationModel>,
    pub discovery_origins: Seq<OriginModel>,
    pub project_observations: Seq<ObservationModel>,
    pub review_plans: Seq<PlanModel>,
    pub schema_version: i64,
    pub next_run_id: i64,
    pub next_event_id: i64,
    pub next_error_id: i64,
    pub next_generation_id: i64,
    pub next_origin_id: i64,
    pub next_plan_id: i64,
}

impl View for Store {
    type V = StoreModel;

    open spec fn view(&self) -> StoreModel {
        StoreModel {
            projects: rows_view(self.projects@),
            runs: rows_view(self.runs@),
            clean_events: rows_view(self.clean_events@),
            errors: rows_view(self.errors@),
            review_status: match self.review_status {
                Some(row) => Some(row@),
                None => None,
            },
            scheduler_state: self.scheduler_state,
            linked_worktrees: rows_view(self.linked_worktrees@),
            worktree_discovery_failures: rows_view(self.worktree_discovery_failures@),
            discovery_generations: rows_view(self.discovery_generations@),
            discovery_origins: rows_view(self.discovery_origins@),
            project_observations: rows_view(self.project_observations@),
            review_plans: rows_view(self.review_plans@),
            schema_version: self.schema_version,
            next_run_id: self.next_run_id,
            next_event_id: self.next_event_id,
            next_error_id: self.next_error_id,
            next_generation_id: self.next_generation_id,
            next_origin_id: self.next_origin_id,
            next_plan_id: self.next_plan_id,
        }
    }
}

/// Why an operation on the store fails.
#[derive(Debug, PartialEq, Eq)]
pub enum StoreError {
    /// A path without text.
    NotText(PathBuf),
    /// A time before the epoch.
    BeforeEpoch,
    /// A time or a number that the store cannot hold.
    OutOfRange,
    /// A number of reviewed bytes that the store cannot hold.
    BytesOutOfRange,
    /// The age of a write that the store cannot hold.
    AgeOutOfRange,
    /// A generation that is not the current one of the policy.
    NotCurrentGeneration,
    /// No run has been recorded.
    NoRuns,
    /// A run that has not been recorded.
    UnknownRun,
    /// There is no scheduler state to change.
    NoSchedulerState,
    /// There is no authorized observation to change.
    NoAuthorizedObservation,
    /// An origin that observed one project twice.
    DuplicateObservation(PathBuf),
    /// This path has to be resolved first.
    Unresolved(PathBuf),
    /// A path that exists but does not resolve.
    Unresolvable(PathBuf),
}

/// The contents of an error.
pub enum StoreFault {
    NotText(Seq<u8>),
    BeforeEpoch,
    OutOfRange,
    BytesOutOfRange,
    AgeOutOfRange,
    NotCurrentGeneration,
    NoRuns,
    UnknownRun,
    NoSchedulerState,
    NoAuthorizedObservation,
    DuplicateObservation(Seq<u8>),
    Unresolved(Seq<u8>),
    Unresolvable(Seq<u8>),
}

impl View for StoreError {
    type V = StoreFault;

    open spec fn view(&self) -> StoreFault {
        match self {
            StoreError::NotText(path) => StoreFault::NotText(path@),
            StoreError::BeforeEpoch => StoreFault::BeforeEpoch,
            StoreError::OutOfRange => StoreFault::OutOfRange,
            StoreError::BytesOutOfRange => StoreFault::BytesOutOfRange,
            StoreError::AgeOutOfRange => StoreFault::AgeOutOfRange,
            StoreError::NotCurrentGeneration => StoreFault::NotCurrentGeneration,
            StoreError::NoRuns => StoreFault::NoRuns,
            StoreError::UnknownRun => StoreFault::UnknownRun,
            StoreError::NoSchedulerState => StoreFault::NoSchedulerState,
            StoreError::NoAuthorizedObservation => StoreFault::NoAuthorizedObservation,
            StoreError::DuplicateObservation(path) => StoreFault::DuplicateObservation(path@),
            StoreError::Unresolved(path) => StoreFault::Unresolved(path@),
            StoreError::Unresolvable(path) => StoreFault::Unresolvable(path@),
        }
    }
}

impl Store {
    /// A store without any rows.
    pub fn empty() -> (store: Store)
        ensures
            store@ == empty_store(),
            consistent(store@),
    {
        let store = Store {
            projects: Vec::new(),
            runs: Vec::new(),
            clean_events: Vec::new(),
            errors: Vec::new(),
            review_status: None,
            scheduler_state: None,
            linked_worktrees: Vec::new(),
            worktree_discovery_failures: Vec::new(),
            discovery_generations: Vec::new(),
            discovery_origins: Vec::new(),
            project_observations: Vec::new(),
            review_plans: Vec::new(),
            schema_version: SCHEMA_VERSION,
            next_run_id: 1,
            next_event_id: 1,
            next_error_id: 1,
            next_generation_id: 1,
            next_origin_id: 1,
            next_plan_id: 1,
        };
        proof {
            let model = store@;
            assert(model.projects =~= Seq::empty());
            assert(model.runs =~= Seq::empty());
            assert(model.clean_events =~= Seq::empty());
            assert(model.errors =~= Seq::empty());
            assert(model.linked_worktrees =~= Seq::empty());
            assert(model.worktree_discovery_failures =~= Seq::empty());
            assert(model.discovery_generations =~= Seq::empty());
            assert(model.discovery_origins =~= Seq::empty());
            assert(model.project_observations =~= Seq::empty());
            assert(model.review_plans =~= Seq::empty());
        }
        store
    }
}

/// A store without any rows.
pub open spec fn empty_store() -> StoreModel {
    StoreModel {
        projects: Seq::empty(),
        runs: Seq::empty(),
        clean_events: Seq::empty(),
        errors: Seq::empty(),
        review_status: None,
        scheduler_state: None,
        linked_worktrees: Seq::empty(),
        worktree_discovery_failures: Seq::empty(),
        discovery_generations: Seq::empty(),
        discovery_origins: Seq::empty(),
        project_observations: Seq::empty(),
        review_plans: Seq::empty(),
        schema_version: SCHEMA_VERSION,
        next_run_id: 1,
        next_event_id: 1,
        next_error_id: 1,
        next_generation_id: 1,
        next_origin_id: 1,
        next_plan_id: 1,
    }
}

/// The whole seconds of a time since the epoch; `None` before it.
pub open spec fn epoch_of(time: int) -> Option<i64> {
    if time < 0 {
        None
    } else {
        Some((time / 1_000_000_000) as i64)
    }
}

/// The time that a number of seconds stands for; a negative one for the epoch.
pub open spec fn time_of(secs: i64) -> int {
    if secs < 0 {
        0
    } else {
        secs * 1_000_000_000
    }
}

/// The whole seconds of a time since the epoch.
pub fn to_epoch(time: SystemTime) -> (result: Result<i64, StoreError>)
    ensures
        match epoch_of(time@) {
            Some(secs) => result == Ok::<i64, StoreError>(secs) && secs * 1_000_000_000 <= time@,
            None => result == Err::<i64, StoreError>(StoreError::BeforeEpoch),
        },
{
    let secs: i64 = time.secs();
    if secs < 0 {
        Err(StoreError::BeforeEpoch)
    } else {
        Ok(secs)
    }
}

/// The time that a number of seconds stands for.
pub fn from_epoch(secs: i64) -> (time: SystemTime)
    ensures
        time@ == time_of(secs),
{
    if secs < 0 {
        SystemTime::epoch()
    } else {
        SystemTime::from_secs(secs)
    }
}

/// The times that optional numbers of seconds stand for.
pub fn from_optional_epoch(secs: Option<i64>) -> (time: Option<SystemTime>)
    ensures
        match secs {
            Some(s) => time matches Some(t) && t@ == time_of(s),
            None => time is None,
        },
{
    match secs {
        Some(s) => Some(from_epoch(s)),
        None => None,
    }
}

/// The text of a path.
pub fn path_to_string(path: &PathBuf) -> (result: Result<String, StoreError>)
    ensures
        if valid_utf8(path@) {
            result matches Ok(text) && text@ == decode_utf8(path@)
        } else {
            result matches Err(StoreError::NotText(p)) && p@ == path@
        },
{
    match path.to_str() {
        Some(text) => Ok(text),
        None => Err(StoreError::NotText(path.clone())),
    }
}

/// A stored time is at most a second earlier than the time that was stored.
pub proof fn storing_a_time_drops_less_than_a_second(time: int)
    requires
        0 <= time,
        crate::time::representable(time),
    ensures
        epoch_of(time) matches Some(secs) && time - 1_000_000_000 < time_of(secs) <= time,
{
}

} // verus!
