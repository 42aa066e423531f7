//! When the scheduler acts next.

use crate::store::rows::{SchedulerRow, SchedulerStatus};
use crate::store::{
    epoch_of, from_epoch, from_optional_epoch, time_of, to_epoch, Store, StoreError, StoreFault, StoreModel,
};
use crate::time::SystemTime;
use crate::store::keys::consistent;
use vstd::prelude::*;

verus! {

/// The scheduler's state with new times, next to what else it holds.
pub open spec fn scheduled(
    state: Option<SchedulerRow>,
    updated_at: i64,
    next_clean_at: i64,
    next_scan_at: i64,
) -> SchedulerRow {
    match state {
        Some(row) => SchedulerRow { updated_at, next_clean_at, next_scan_at, ..row },
        None => SchedulerRow {
            updated_at,
            next_clean_at,
            next_scan_at,
            last_forced_scan_at: None,
            scan_retry_at: None,
        },
    }
}

/// The scheduler's state after a scan was forced.
pub open spec fn forced(state: Option<SchedulerRow>, when: i64) -> SchedulerRow {
    match state {
        Some(row) => SchedulerRow { last_forced_scan_at: Some(when), ..row },
        None => SchedulerRow {
            updated_at: when,
            next_clean_at: when,
            next_scan_at: when,
            last_forced_scan_at: Some(when),
            scan_retry_at: None,
        },
    }
}

/// The store with another state of the scheduler.
pub open spec fn with_scheduler(store: StoreModel, state: SchedulerRow) -> StoreModel {
    StoreModel { scheduler_state: Some(state), ..store }
}

/// The seconds of three times, if none is before the epoch.
pub open spec fn three_epochs(a: int, b: int, c: int) -> Option<(i64, i64, i64)> {
    match (epoch_of(a), epoch_of(b), epoch_of(c)) {
        (Some(x), Some(y), Some(z)) => Some((x, y, z)),
        _ => None,
    }
}

/// Whether optional seconds stand for an optional time.
pub open spec fn is_time(time: Option<SystemTime>, secs: Option<i64>) -> bool {
    match secs {
        Some(s) => time matches Some(t) && t@ == time_of(s),
        None => time is None,
    }
}

impl Store {
    /// Records when the scheduler acts next.
    pub fn record_scheduler_status(
        &mut self,
        updated_at: SystemTime,
        next_clean_at: SystemTime,
        next_scan_at: SystemTime,
    ) -> (result: Result<(), StoreError>)
        ensures
            match three_epochs(updated_at@, next_clean_at@, next_scan_at@) {
                Some((updated, clean, scan)) => result is Ok && final(self)@ == with_scheduler(
                    old(self)@,
                    scheduled(old(self)@.scheduler_state, updated, clean, scan),
                ),
                None => result matches Err(error) && error@ == StoreFault::BeforeEpoch && final(self)@ == old(self)@,
            },
            consistent(old(self)@) ==> consistent(final(self)@),
    {
        let updated: i64 = match to_epoch(updated_at) {
            Ok(secs) => secs,
            Err(error) => return Err(error),
        };
        let clean: i64 = match to_epoch(next_clean_at) {
            Ok(secs) => secs,
            Err(error) => return Err(error),
        };
        let scan: i64 = match to_epoch(next_scan_at) {
            Ok(secs) => secs,
            Err(error) => return Err(error),
        };
        let (last_forced_scan_at, scan_retry_at) = match self.scheduler_state {
            Some(row) => (row.last_forced_scan_at, row.scan_retry_at),
            None => (None, None),
        };
        self.scheduler_state = Some(
            SchedulerRow {
                updated_at: updated,
                next_clean_at: clean,
                next_scan_at: scan,
                last_forced_scan_at,
                scan_retry_at,
            },
        );
        Ok(())
    }

    /// When the scheduler acts next.
    pub fn scheduler_status(&self) -> (status: Option<SchedulerStatus>)
        ensures
            match self@.scheduler_state {
                Some(row) => status matches Some(s) && s.updated_at@ == time_of(row.updated_at) && s.next_clean_at@
                    == time_of(row.next_clean_at) && s.next_scan_at@ == time_of(row.next_scan_at),
                None => status is None,
            },
    {
        match self.scheduler_state {
            Some(row) => Some(
                SchedulerStatus {
                    updated_at: from_epoch(row.updated_at),
                    next_clean_at: from_epoch(row.next_clean_at),
                    next_scan_at: from_epoch(row.next_scan_at),
                },
            ),
            None => None,
        }
    }

    /// When a scan was last forced.
    pub fn last_forced_scan_at(&self) -> (time: Option<SystemTime>)
        ensures
            is_time(
                time,
                match self@.scheduler_state {
                    Some(row) => row.last_forced_scan_at,
                    None => None,
                },
            ),
    {
        match self.scheduler_state {
            Some(row) => from_optional_epoch(row.last_forced_scan_at),
            None => None,
        }
    }

    /// Records that a scan was forced.
    pub fn record_forced_scan_at(&mut self, when: SystemTime) -> (result: Result<(), StoreError>)
        ensures
            match epoch_of(when@) {
                None => result matches Err(error) && error@ == StoreFault::BeforeEpoch && final(self)@ == old(self)@,
                Some(secs) => result is Ok && final(self)@ == with_scheduler(
                    old(self)@,
                    forced(old(self)@.scheduler_state, secs),
                ),
            },
            consistent(old(self)@) ==> consistent(final(self)@),
    {
        let secs: i64 = match to_epoch(when) {
            Ok(secs) => secs,
            Err(error) => return Err(error),
        };
        self.scheduler_state = Some(
            match self.scheduler_state {
                Some(row) => SchedulerRow {
                    updated_at: row.updated_at,
                    next_clean_at: row.next_clean_at,
                    next_scan_at: row.next_scan_at,
                    last_forced_scan_at: Some(secs),
                    scan_retry_at: row.scan_retry_at,
                },
                None => SchedulerRow {
                    updated_at: secs,
                    next_clean_at: secs,
                    next_scan_at: secs,
                    last_forced_scan_at: Some(secs),
                    scan_retry_at: None,
                },
            },
        );
        Ok(())
    }

    /// When a failed scan is tried again.
    pub fn scan_retry_at(&self) -> (time: Option<SystemTime>)
        ensures
            is_time(
                time,
                match self@.scheduler_state {
                    Some(row) => row.scan_retry_at,
                    None => None,
                },
            ),
    {
        match self.scheduler_state {
            Some(row) => from_optional_epoch(row.scan_retry_at),
            None => None,
        }
    }

    /// Records when a failed scan is tried again.
    pub fn record_scan_retry_at(&mut self, when: SystemTime) -> (result: Result<(), StoreError>)
        ensures
            match (epoch_of(when@), old(self)@.scheduler_state) {
                (None, _) => result matches Err(error) && error@ == StoreFault::BeforeEpoch && final(self)@
                    == old(self)@,
                (Some(secs), None) => result matches Err(error) && error@ == StoreFault::NoSchedulerState
                    && final(self)@ == old(self)@,
                (Some(secs), Some(row)) => result is Ok && final(self)@ == with_scheduler(
                    old(self)@,
                    (SchedulerRow { scan_retry_at: Some(secs), ..row }),
                ),
            },
            consistent(old(self)@) ==> consistent(final(self)@),
    {
        let secs: i64 = match to_epoch(when) {
            Ok(secs) => secs,
            Err(error) => return Err(error),
        };
        match self.scheduler_state {
            Some(row) => {
                self.scheduler_state = Some(
                    SchedulerRow {
                        updated_at: row.updated_at,
                        next_clean_at: row.next_clean_at,
                        next_scan_at: row.next_scan_at,
                        last_forced_scan_at: row.last_forced_scan_at,
                        scan_retry_at: Some(secs),
                    },
                );
                Ok(())
            },
            None => Err(StoreError::NoSchedulerState),
        }
    }

    /// Forgets when a failed scan is tried again.
    pub fn clear_scan_retry_at(&mut self)
        ensures
            final(self)@ == retry_cleared(old(self)@),
            consistent(old(self)@) ==> consistent(final(self)@),
    {
        match self.scheduler_state {
            Some(row) => {
                self.scheduler_state = Some(
                    SchedulerRow {
                        updated_at: row.updated_at,
                        next_clean_at: row.next_clean_at,
                        next_scan_at: row.next_scan_at,
                        last_forced_scan_at: row.last_forced_scan_at,
                        scan_retry_at: None,
                    },
                );
            },
            None => {},
        }
    }
}

/// The store without a time at which a failed scan is tried again.
pub open spec fn retry_cleared(store: StoreModel) -> StoreModel {
    match store.scheduler_state {
        Some(row) => with_scheduler(store, SchedulerRow { scan_retry_at: None, ..row }),
        None => store,
    }
}

} // verus!
