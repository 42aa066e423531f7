//! Copies of rows and of the whole store, by which an operation that fails leaves
//! everything as it was.

use crate::store::rows::{
    copy_identity, copy_text, ErrorRow, EventRow, FailureRow, GenerationRow, LinkedRow, ObservationRow, OriginRow, PlanRow,
    ProjectRow, RunRow, StatusRow, TargetRow,
};
use crate::store::table::{copy_rows, Row};
use crate::store::Store;
use vstd::prelude::*;

verus! {

impl Row for ProjectRow {
    fn duplicate(&self) -> (copy: Self) {
        ProjectRow {
            path: self.path.clone(),
            discovered_at: self.discovered_at,
            last_seen_at: self.last_seen_at,
            last_cleaned_at: self.last_cleaned_at,
        }
    }
}

impl Row for RunRow {
    fn duplicate(&self) -> (copy: Self) {
        *self
    }
}

impl Row for EventRow {
    fn duplicate(&self) -> (copy: Self) {
        EventRow {
            id: self.id,
            run_id: self.run_id,
            ts: self.ts,
            path: self.path.clone(),
            bytes_before: self.bytes_before,
            bytes_after: self.bytes_after,
            duration_ms: self.duration_ms,
            exit_code: self.exit_code,
            stderr_excerpt: self.stderr_excerpt.clone(),
            outcome: self.outcome,
            measurement_failed: self.measurement_failed,
        }
    }
}

impl Row for ErrorRow {
    fn duplicate(&self) -> (copy: Self) {
        ErrorRow {
            id: self.id,
            ts: self.ts,
            category: self.category.clone(),
            path: copy_text(&self.path),
            message: self.message.clone(),
        }
    }
}

impl Row for StatusRow {
    fn duplicate(&self) -> (copy: Self) {
        StatusRow { reviewed_at: self.reviewed_at, source: self.source.clone(), summary: self.summary }
    }
}

impl Row for LinkedRow {
    fn duplicate(&self) -> (copy: Self) {
        LinkedRow {
            primary: self.primary.clone(),
            linked: self.linked.clone(),
            canonical_primary: copy_text(&self.canonical_primary),
        }
    }
}

impl Row for FailureRow {
    fn duplicate(&self) -> (copy: Self) {
        FailureRow {
            primary: self.primary.clone(),
            failed_at: self.failed_at,
            message: self.message.clone(),
            canonical_primary: copy_text(&self.canonical_primary),
        }
    }
}

impl Row for GenerationRow {
    fn duplicate(&self) -> (copy: Self) {
        GenerationRow {
            id: self.id,
            created_at: self.created_at,
            policy_hash: self.policy_hash.clone(),
            boot_session_id: copy_text(&self.boot_session_id),
            authority_valid: self.authority_valid,
        }
    }
}

impl Row for OriginRow {
    fn duplicate(&self) -> (copy: Self) {
        OriginRow {
            id: self.id,
            generation_id: self.generation_id,
            kind: self.kind,
            configured_path: self.configured_path.clone(),
            canonical_path: copy_text(&self.canonical_path),
            completed: self.completed,
            error: copy_text(&self.error),
        }
    }
}

impl Row for ObservationRow {
    fn duplicate(&self) -> (copy: Self) {
        ObservationRow {
            generation_id: self.generation_id,
            origin_id: self.origin_id,
            project_path: self.project_path.clone(),
            project_identity: self.project_identity.clone(),
            target_identity: copy_identity(&self.target_identity),
            observed_at: self.observed_at,
            authorized: self.authorized,
            blocked_reason: copy_text(&self.blocked_reason),
            boot_session_id: copy_text(&self.boot_session_id),
        }
    }
}

impl Row for TargetRow {
    fn duplicate(&self) -> (copy: Self) {
        TargetRow {
            ordinal: self.ordinal,
            project_path: self.project_path.clone(),
            canonical_project_path: copy_text(&self.canonical_project_path),
            project_class: self.project_class.clone(),
            target_path: self.target_path.clone(),
            project_device: self.project_device,
            project_inode: self.project_inode,
            project_mount_id: copy_text(&self.project_mount_id),
            target_device: self.target_device,
            target_inode: self.target_inode,
            target_mount_id: copy_text(&self.target_mount_id),
            review_boot_session_id: copy_text(&self.review_boot_session_id),
            reviewed_bytes: self.reviewed_bytes,
            decision: self.decision.clone(),
            skip_reason: copy_text(&self.skip_reason),
            skip_newest_age_secs: self.skip_newest_age_secs,
        }
    }
}

impl Row for PlanRow {
    fn duplicate(&self) -> (copy: Self) {
        PlanRow {
            id: self.id,
            created_at: self.created_at,
            expires_at: self.expires_at,
            policy_hash: self.policy_hash.clone(),
            generation_id: self.generation_id,
            coverage_incomplete: self.coverage_incomplete,
            candidate_bytes: self.candidate_bytes,
            targets: copy_rows(&self.targets),
        }
    }
}

impl Store {
    /// A copy of the store.
    pub fn duplicate(&self) -> (copy: Store)
        ensures
            copy@ == self@,
    {
        Store {
            projects: copy_rows(&self.projects),
            runs: copy_rows(&self.runs),
            clean_events: copy_rows(&self.clean_events),
            errors: copy_rows(&self.errors),
            review_status: match &self.review_status {
                Some(row) => Some(row.duplicate()),
                None => None,
            },
            scheduler_state: self.scheduler_state,
            linked_worktrees: copy_rows(&self.linked_worktrees),
            worktree_discovery_failures: copy_rows(&self.worktree_discovery_failures),
            discovery_generations: copy_rows(&self.discovery_generations),
            discovery_origins: copy_rows(&self.discovery_origins),
            project_observations: copy_rows(&self.project_observations),
            review_plans: copy_rows(&self.review_plans),
            schema_version: self.schema_version,
            next_run_id: self.next_run_id,
            next_event_id: self.next_event_id,
            next_error_id: self.next_error_id,
            next_generation_id: self.next_generation_id,
            next_origin_id: self.next_origin_id,
            next_plan_id: self.next_plan_id,
        }
    }
}

} // verus!
