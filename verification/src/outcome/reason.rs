//! The machine-readable reasons of an outcome that is not complete.

use vstd::prelude::*;

verus! {

pub const CARGO_FAILED: &'static str = "cargo_failed";

pub const CLEANUP_FAILED: &'static str = "cleanup_failed";

pub const COMMAND_FAILED: &'static str = "command_failed";

pub const GENERATION_INVALID: &'static str = "generation_invalid";

pub const GENERATION_MISSING: &'static str = "generation_missing";

pub const LOCK_UNAVAILABLE: &'static str = "lock_unavailable";

pub const MEASUREMENT_FAILED: &'static str = "measurement_failed";

pub const ORIGIN_INCOMPLETE: &'static str = "origin_incomplete";

pub const REVIEW_GENERATION_MISMATCH: &'static str = "review_generation_mismatch";

pub const REVIEW_PLAN_EXPIRED: &'static str = "review_plan_expired";

pub const REVIEW_PLAN_MISSING: &'static str = "review_plan_missing";

pub const REVIEW_POLICY_MISMATCH: &'static str = "review_policy_mismatch";

pub const SCAN_INCOMPLETE: &'static str = "scan_incomplete";

} // verus!
