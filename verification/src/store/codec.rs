//! Reviews in the columns of a plan's targets, and back.

use crate::identity::{BootSessionId, FilesystemIdentity, IdentityModel, MountIdentity, ReviewedIdentity, ReviewedModel};
use crate::path::PathBuf;
use crate::safety::{CleanDecision, ProjectClass, ProjectReview, ReviewModel, SkipReason};
use crate::store::rows::{optional_text, ReviewPlanTarget, TargetModel, TargetRow};
use crate::store::{path_to_string, StoreError, StoreFault};
use crate::text::{debug_chars, ended, joined, quoted, text_equal};
use vstd::prelude::*;
use vstd::utf8::*;

verus! {

/// The label of a project's class.
pub open spec fn class_label(class: ProjectClass) -> Seq<char> {
    match class {
        ProjectClass::Workspace => "workspace"@,
        ProjectClass::ManagedCache => "managed_cache"@,
        ProjectClass::ContainerStorage => "container_storage"@,
    }
}

/// The class with a label.
pub open spec fn class_of_label(label: Seq<char>) -> Option<ProjectClass> {
    if label == "workspace"@ {
        Some(ProjectClass::Workspace)
    } else if label == "managed_cache"@ {
        Some(ProjectClass::ManagedCache)
    } else if label == "container_storage"@ {
        Some(ProjectClass::ContainerStorage)
    } else {
        None
    }
}

/// The label of a project's class.
pub fn project_class_label(class: ProjectClass) -> (label: &'static str)
    ensures
        label@ == class_label(class),
{
    match class {
        ProjectClass::Workspace => "workspace",
        ProjectClass::ManagedCache => "managed_cache",
        ProjectClass::ContainerStorage => "container_storage",
    }
}

/// What is said of a label that no class has.
pub open spec fn class_fault(label: Seq<char>) -> Seq<char> {
    "unknown persisted project class "@ + debug_chars(label)
}

/// The class with a label, or what is wrong with it.
pub fn parse_project_class(value: &str) -> (class: Result<ProjectClass, String>)
    ensures
        match class_of_label(value@) {
            Some(known) => class == Ok::<ProjectClass, String>(known),
            None => class matches Err(text) && text@ == class_fault(value@),
        },
{
    if text_equal(value, "workspace") {
        Ok(ProjectClass::Workspace)
    } else if text_equal(value, "managed_cache") {
        Ok(ProjectClass::ManagedCache)
    } else if text_equal(value, "container_storage") {
        Ok(ProjectClass::ContainerStorage)
    } else {
        Err(ended("unknown persisted project class ", quoted(value).as_str()))
    }
}

/// The label of a reason for skipping.
pub open spec fn reason_label(reason: SkipReason) -> Seq<char> {
    match reason {
        SkipReason::NoTarget => "no_target"@,
        SkipReason::ActiveRecentWrite { .. } => "active_recent_write"@,
        SkipReason::ActiveProcess => "active_process"@,
        SkipReason::ManagedCache => "managed_cache"@,
        SkipReason::ContainerStorage => "container_storage"@,
        SkipReason::ScanError => "scan_error"@,
        SkipReason::TargetReadError => "target_read_error"@,
        SkipReason::InvalidManifest => "invalid_manifest"@,
        SkipReason::ProjectIdentityUnavailable => "project_identity_unavailable"@,
        SkipReason::TargetIdentityUnavailable => "target_identity_unavailable"@,
        SkipReason::CrossDeviceTarget => "cross_device_target"@,
        SkipReason::CrossMountTarget => "cross_mount_target"@,
        SkipReason::ProjectIdentityChanged => "project_identity_changed"@,
        SkipReason::TargetIdentityChanged => "target_identity_changed"@,
        SkipReason::OutOfScope => "out_of_scope"@,
        SkipReason::Excluded => "excluded"@,
    }
}

/// The age that goes with a reason for skipping.
pub open spec fn reason_age(reason: SkipReason) -> Option<u64> {
    match reason {
        SkipReason::ActiveRecentWrite { newest_age_secs } => Some(newest_age_secs),
        _ => None,
    }
}

/// The reason with a label, other than a recent write.
pub open spec fn plain_reason(label: Seq<char>) -> Option<SkipReason> {
    if label == "no_target"@ {
        Some(SkipReason::NoTarget)
    } else if label == "active_process"@ {
        Some(SkipReason::ActiveProcess)
    } else if label == "managed_cache"@ {
        Some(SkipReason::ManagedCache)
    } else if label == "container_storage"@ {
        Some(SkipReason::ContainerStorage)
    } else if label == "scan_error"@ {
        Some(SkipReason::ScanError)
    } else if label == "target_read_error"@ {
        Some(SkipReason::TargetReadError)
    } else if label == "invalid_manifest"@ {
        Some(SkipReason::InvalidManifest)
    } else if label == "project_identity_unavailable"@ {
        Some(SkipReason::ProjectIdentityUnavailable)
    } else if label == "target_identity_unavailable"@ {
        Some(SkipReason::TargetIdentityUnavailable)
    } else if label == "cross_device_target"@ {
        Some(SkipReason::CrossDeviceTarget)
    } else if label == "cross_mount_target"@ {
        Some(SkipReason::CrossMountTarget)
    } else if label == "project_identity_changed"@ {
        Some(SkipReason::ProjectIdentityChanged)
    } else if label == "target_identity_changed"@ {
        Some(SkipReason::TargetIdentityChanged)
    } else if label == "out_of_scope"@ {
        Some(SkipReason::OutOfScope)
    } else if label == "excluded"@ {
        Some(SkipReason::Excluded)
    } else {
        None
    }
}

/// The reason that a label and an age stand for: only a recent write has an age.
pub open spec fn reason_of(label: Seq<char>, age: Option<i64>) -> Option<SkipReason> {
    if label == "active_recent_write"@ {
        match age {
            Some(secs) => if secs >= 0 {
                Some(SkipReason::ActiveRecentWrite { newest_age_secs: secs as u64 })
            } else {
                None
            },
            None => None,
        }
    } else if age is Some {
        None
    } else {
        plain_reason(label)
    }
}

/// The decision that three columns stand for.
pub open spec fn decision_of(decision: Seq<char>, reason: Option<Seq<char>>, age: Option<i64>) -> Option<CleanDecision> {
    if decision == "cleanable"@ && reason is None && age is None {
        Some(CleanDecision::Cleanable)
    } else if decision == "skipped"@ && reason is Some {
        match reason_of(reason->0, age) {
            Some(r) => Some(CleanDecision::Skipped(r)),
            None => None,
        }
    } else {
        None
    }
}

/// What is said of a label and an age that stand for no reason.
pub open spec fn reason_fault(label: Seq<char>, age: Option<i64>) -> Seq<char> {
    if label == "active_recent_write"@ {
        match age {
            None => "active_recent_write is missing newest age"@,
            Some(_) => "active_recent_write newest age is out of range"@,
        }
    } else if age is Some {
        "persisted skip reason "@ + debug_chars(label) + " unexpectedly has a newest age"@
    } else {
        "unknown persisted skip reason "@ + debug_chars(label)
    }
}

/// An optional text as the formatter for debugging shows it.
pub open spec fn debug_optional(text: Option<Seq<char>>) -> Seq<char> {
    match text {
        Some(t) => "Some("@ + debug_chars(t) + ")"@,
        None => "None"@,
    }
}

/// What is said of three columns that stand for no decision.
pub open spec fn decision_fault(decision: Seq<char>, reason: Option<Seq<char>>, age: Option<i64>) -> Seq<char> {
    if decision == "skipped"@ && reason is Some {
        reason_fault(reason->0, age)
    } else {
        "invalid persisted cleanup decision "@ + debug_chars(decision) + " with skip reason "@ + debug_optional(reason)
    }
}

/// The label and the age of a reason for skipping.
pub fn skip_reason_parts(reason: &SkipReason) -> (parts: (&'static str, Option<u64>))
    ensures
        parts.0@ == reason_label(*reason),
        parts.1 == reason_age(*reason),
{
    match reason {
        SkipReason::NoTarget => ("no_target", None),
        SkipReason::ActiveRecentWrite { newest_age_secs } => ("active_recent_write", Some(*newest_age_secs)),
        SkipReason::ActiveProcess => ("active_process", None),
        SkipReason::ManagedCache => ("managed_cache", None),
        SkipReason::ContainerStorage => ("container_storage", None),
        SkipReason::ScanError => ("scan_error", None),
        SkipReason::TargetReadError => ("target_read_error", None),
        SkipReason::InvalidManifest => ("invalid_manifest", None),
        SkipReason::ProjectIdentityUnavailable => ("project_identity_unavailable", None),
        SkipReason::TargetIdentityUnavailable => ("target_identity_unavailable", None),
        SkipReason::CrossDeviceTarget => ("cross_device_target", None),
        SkipReason::CrossMountTarget => ("cross_mount_target", None),
        SkipReason::ProjectIdentityChanged => ("project_identity_changed", None),
        SkipReason::TargetIdentityChanged => ("target_identity_changed", None),
        SkipReason::OutOfScope => ("out_of_scope", None),
        SkipReason::Excluded => ("excluded", None),
    }
}

/// The label of a decision, and of the reason with its age where there is one.
pub fn decision_parts(decision: &CleanDecision) -> (parts: (&'static str, Option<&'static str>, Option<u64>))
    ensures
        match decision {
            CleanDecision::Cleanable => parts.0@ == "cleanable"@ && parts.1 is None && parts.2 is None,
            CleanDecision::Skipped(reason) => parts.0@ == "skipped"@ && (parts.1 matches Some(label) && label@
                == reason_label(*reason)) && parts.2 == reason_age(*reason),
        },
{
    match decision {
        CleanDecision::Cleanable => ("cleanable", None, None),
        CleanDecision::Skipped(reason) => {
            let (label, age) = skip_reason_parts(reason);
            ("skipped", Some(label), age)
        },
    }
}

/// The reason that a label and an age stand for, or what is wrong with them.
pub fn parse_skip_reason(reason: &str, newest_age_secs: Option<i64>) -> (parsed: Result<SkipReason, String>)
    ensures
        match reason_of(reason@, newest_age_secs) {
            Some(known) => parsed == Ok::<SkipReason, String>(known),
            None => parsed matches Err(text) && text@ == reason_fault(reason@, newest_age_secs),
        },
{
    if text_equal(reason, "active_recent_write") {
        return match newest_age_secs {
            Some(secs) => if secs >= 0 {
                Ok(SkipReason::ActiveRecentWrite { newest_age_secs: secs as u64 })
            } else {
                Err("active_recent_write newest age is out of range".to_owned())
            },
            None => Err("active_recent_write is missing newest age".to_owned()),
        };
    }
    if newest_age_secs.is_some() {
        return Err(joined("persisted skip reason ", quoted(reason).as_str(), " unexpectedly has a newest age"));
    }
    if text_equal(reason, "no_target") {
        Ok(SkipReason::NoTarget)
    } else if text_equal(reason, "active_process") {
        Ok(SkipReason::ActiveProcess)
    } else if text_equal(reason, "managed_cache") {
        Ok(SkipReason::ManagedCache)
    } else if text_equal(reason, "container_storage") {
        Ok(SkipReason::ContainerStorage)
    } else if text_equal(reason, "scan_error") {
        Ok(SkipReason::ScanError)
    } else if text_equal(reason, "target_read_error") {
        Ok(SkipReason::TargetReadError)
    } else if text_equal(reason, "invalid_manifest") {
        Ok(SkipReason::InvalidManifest)
    } else if text_equal(reason, "project_identity_unavailable") {
        Ok(SkipReason::ProjectIdentityUnavailable)
    } else if text_equal(reason, "target_identity_unavailable") {
        Ok(SkipReason::TargetIdentityUnavailable)
    } else if text_equal(reason, "cross_device_target") {
        Ok(SkipReason::CrossDeviceTarget)
    } else if text_equal(reason, "cross_mount_target") {
        Ok(SkipReason::CrossMountTarget)
    } else if text_equal(reason, "project_identity_changed") {
        Ok(SkipReason::ProjectIdentityChanged)
    } else if text_equal(reason, "target_identity_changed") {
        Ok(SkipReason::TargetIdentityChanged)
    } else if text_equal(reason, "out_of_scope") {
        Ok(SkipReason::OutOfScope)
    } else if text_equal(reason, "excluded") {
        Ok(SkipReason::Excluded)
    } else {
        Err(ended("unknown persisted skip reason ", quoted(reason).as_str()))
    }
}

fn invalid_decision(decision: &str, skip_reason: &Option<String>) -> (text: String)
    ensures
        text@ == "invalid persisted cleanup decision "@ + debug_chars(decision@) + " with skip reason "@
            + debug_optional(optional_text(*skip_reason)),
{
    let reason = match skip_reason {
        Some(label) => joined("Some(", quoted(label.as_str()).as_str(), ")"),
        None => "None".to_owned(),
    };
    let head = joined("invalid persisted cleanup decision ", quoted(decision).as_str(), " with skip reason ");
    ended(head.as_str(), reason.as_str())
}

/// The decision that three columns stand for, or what is wrong with them.
pub fn parse_decision(decision: &str, skip_reason: &Option<String>, skip_newest_age_secs: Option<i64>) -> (parsed: Result<
    CleanDecision,
    String,
>)
    ensures
        match decision_of(decision@, optional_text(*skip_reason), skip_newest_age_secs) {
            Some(known) => parsed == Ok::<CleanDecision, String>(known),
            None => parsed matches Err(text) && text@ == decision_fault(
                decision@,
                optional_text(*skip_reason),
                skip_newest_age_secs,
            ),
        },
{
    match skip_reason {
        None => if text_equal(decision, "cleanable") && skip_newest_age_secs.is_none() {
            Ok(CleanDecision::Cleanable)
        } else {
            Err(invalid_decision(decision, skip_reason))
        },
        Some(reason) => if text_equal(decision, "skipped") {
            match parse_skip_reason(reason.as_str(), skip_newest_age_secs) {
                Ok(r) => Ok(CleanDecision::Skipped(r)),
                Err(text) => Err(text),
            }
        } else {
            Err(invalid_decision(decision, skip_reason))
        },
    }
}

proof fn lemma_label_lengths()
    ensures
        "no_target"@.len() == 9,
        "active_recent_write"@.len() == 19,
        "active_process"@.len() == 14,
        "managed_cache"@.len() == 13,
        "container_storage"@.len() == 17,
        "scan_error"@.len() == 10,
        "target_read_error"@.len() == 17,
        "invalid_manifest"@.len() == 16,
        "project_identity_unavailable"@.len() == 28,
        "target_identity_unavailable"@.len() == 27,
        "cross_device_target"@.len() == 19,
        "cross_mount_target"@.len() == 18,
        "project_identity_changed"@.len() == 24,
        "target_identity_changed"@.len() == 23,
        "out_of_scope"@.len() == 12,
        "excluded"@.len() == 8,
        "workspace"@.len() == 9,
        "active_recent_write"@[0] == 'a',
        "cross_device_target"@[0] == 'c',
        "container_storage"@[0] == 'c',
        "target_read_error"@[0] == 't',
{
    reveal_strlit("no_target");
    reveal_strlit("active_recent_write");
    reveal_strlit("active_process");
    reveal_strlit("managed_cache");
    reveal_strlit("container_storage");
    reveal_strlit("scan_error");
    reveal_strlit("target_read_error");
    reveal_strlit("invalid_manifest");
    reveal_strlit("project_identity_unavailable");
    reveal_strlit("target_identity_unavailable");
    reveal_strlit("cross_device_target");
    reveal_strlit("cross_mount_target");
    reveal_strlit("project_identity_changed");
    reveal_strlit("target_identity_changed");
    reveal_strlit("out_of_scope");
    reveal_strlit("excluded");
    reveal_strlit("workspace");
}

/// A decision and a class are read back as they were written, where the age of a
/// recent write fits its column.
pub proof fn labels_are_read_back(decision: CleanDecision, class: ProjectClass)
    requires
        decision matches CleanDecision::Skipped(SkipReason::ActiveRecentWrite { newest_age_secs }) ==> newest_age_secs
            <= i64::MAX,
    ensures
        class_of_label(class_label(class)) == Some(class),
        match decision {
            CleanDecision::Cleanable => decision_of("cleanable"@, None, None) == Some(decision),
            CleanDecision::Skipped(reason) => decision_of(
                "skipped"@,
                Some(reason_label(reason)),
                match reason_age(reason) {
                    Some(secs) => Some(secs as i64),
                    None => None,
                },
            ) == Some(decision),
        },
{
    lemma_label_lengths();
}

// ------------------------------------------------------------------- targets

/// Whether a number fits a column.
pub open spec fn fits_column(n: u64) -> bool {
    n <= i64::MAX
}

/// Whether the age that goes with a decision fits its column.
pub open spec fn age_fits(decision: CleanDecision) -> bool {
    decision matches CleanDecision::Skipped(reason) ==> (reason_age(reason) matches Some(age) ==> fits_column(age))
}

/// Whether the numbers of a review fit their columns.
pub open spec fn numbers_fit(review: ReviewModel) -> bool {
    identities_fit(review) && fits_column(review.target_bytes) && age_fits(review.decision)
}

/// Whether the paths of a review are text.
pub open spec fn paths_are_text(review: ReviewModel) -> bool {
    &&& valid_utf8(review.path)
    &&& review.canonical_path matches Some(path) ==> valid_utf8(path)
    &&& valid_utf8(review.target_path)
}

/// Whether a review can be stored as a target.
pub open spec fn storable(review: ReviewModel) -> bool {
    numbers_fit(review) && paths_are_text(review)
}

/// Whether the identities of a review fit their columns.
pub open spec fn identities_fit(review: ReviewModel) -> bool {
    review.reviewed_identity matches Some(identity) ==> {
        &&& fits_column(identity.project.device)
        &&& fits_column(identity.project.inode)
        &&& fits_column(identity.target.device)
        &&& fits_column(identity.target.inode)
    }
}

/// Why a review cannot be stored as a target: the first of its numbers that does
/// not fit, or else the first of its paths that is not text.
pub open spec fn target_fault(ordinal: int, review: ReviewModel) -> Option<StoreFault> {
    if !identities_fit(review) {
        Some(StoreFault::OutOfRange)
    } else if !fits_column(review.target_bytes) {
        Some(StoreFault::BytesOutOfRange)
    } else if !age_fits(review.decision) {
        Some(StoreFault::AgeOutOfRange)
    } else if ordinal > i64::MAX {
        Some(StoreFault::OutOfRange)
    } else if !valid_utf8(review.path) {
        Some(StoreFault::NotText(review.path))
    } else if review.canonical_path is Some && !valid_utf8(review.canonical_path->0) {
        Some(StoreFault::NotText(review.canonical_path->0))
    } else if !valid_utf8(review.target_path) {
        Some(StoreFault::NotText(review.target_path))
    } else {
        None
    }
}

/// The columns of a target.
pub open spec fn target_columns(ordinal: i64, review: ReviewModel) -> TargetModel {
    let identity = review.reviewed_identity;
    TargetModel {
        ordinal,
        project_path: decode_utf8(review.path),
        canonical_project_path: match review.canonical_path {
            Some(path) => Some(decode_utf8(path)),
            None => None,
        },
        project_class: class_label(review.class),
        target_path: decode_utf8(review.target_path),
        project_device: match identity {
            Some(i) => Some(i.project.device as i64),
            None => None,
        },
        project_inode: match identity {
            Some(i) => Some(i.project.inode as i64),
            None => None,
        },
        project_mount_id: match identity {
            Some(i) => Some(i.project.mount),
            None => None,
        },
        target_device: match identity {
            Some(i) => Some(i.target.device as i64),
            None => None,
        },
        target_inode: match identity {
            Some(i) => Some(i.target.inode as i64),
            None => None,
        },
        target_mount_id: match identity {
            Some(i) => Some(i.target.mount),
            None => None,
        },
        review_boot_session_id: match identity {
            Some(i) => i.boot_session,
            None => None,
        },
        reviewed_bytes: review.target_bytes as i64,
        decision: match review.decision {
            CleanDecision::Cleanable => "cleanable"@,
            CleanDecision::Skipped(_) => "skipped"@,
        },
        skip_reason: match review.decision {
            CleanDecision::Cleanable => None,
            CleanDecision::Skipped(reason) => Some(reason_label(reason)),
        },
        skip_newest_age_secs: match review.decision {
            CleanDecision::Cleanable => None,
            CleanDecision::Skipped(reason) => match reason_age(reason) {
                Some(age) => Some(age as i64),
                None => None,
            },
        },
    }
}

/// The identities that the columns of a target stand for; `Err` if they are
/// incomplete or out of range.
pub open spec fn identity_of_columns(row: TargetModel) -> Result<Option<ReviewedModel>, ()> {
    if row.project_device is None && row.project_inode is None && row.project_mount_id is None && row.target_device
        is None && row.target_inode is None && row.target_mount_id is None && row.review_boot_session_id is None {
        Ok(None)
    } else if row.project_device is Some && row.project_inode is Some && row.project_mount_id is Some
        && row.target_device is Some && row.target_inode is Some && row.target_mount_id is Some {
        if row.project_device->0 >= 0 && row.project_inode->0 >= 0 && row.target_device->0 >= 0
            && row.target_inode->0 >= 0 {
            Ok(
                Some(
                    ReviewedModel {
                        project: IdentityModel {
                            device: row.project_device->0 as u64,
                            inode: row.project_inode->0 as u64,
                            mount: row.project_mount_id->0,
                        },
                        target: IdentityModel {
                            device: row.target_device->0 as u64,
                            inode: row.target_inode->0 as u64,
                            mount: row.target_mount_id->0,
                        },
                        boot_session: row.review_boot_session_id,
                    },
                ),
            )
        } else {
            Err(())
        }
    } else {
        Err(())
    }
}

/// What is said of columns that stand for no identities.
pub open spec fn identity_fault(row: TargetModel) -> Seq<char> {
    if row.project_device is Some && row.project_inode is Some && row.project_mount_id is Some && row.target_device
        is Some && row.target_inode is Some && row.target_mount_id is Some {
        if row.project_device->0 < 0 {
            "project device is out of range"@
        } else if row.project_inode->0 < 0 {
            "project inode is out of range"@
        } else if row.target_device->0 < 0 {
            "target device is out of range"@
        } else {
            "target inode is out of range"@
        }
    } else {
        "persisted review identity is incomplete"@
    }
}

/// What is said of the columns of a target that stand for no review: what is wrong
/// with the first of them that is.
pub open spec fn columns_fault(row: TargetModel) -> Seq<char> {
    if !(0 <= row.ordinal <= usize::MAX) {
        "review-plan target ordinal is out of range"@
    } else if class_of_label(row.project_class) is None {
        class_fault(row.project_class)
    } else if identity_of_columns(row) is Err {
        identity_fault(row)
    } else if row.reviewed_bytes < 0 {
        "reviewed target bytes are out of range"@
    } else {
        decision_fault(row.decision, row.skip_reason, row.skip_newest_age_secs)
    }
}

/// The review that the columns of a target stand for, if they stand for one.
pub open spec fn review_of_columns(row: TargetModel) -> Option<(i64, ReviewModel)> {
    match (
        class_of_label(row.project_class),
        identity_of_columns(row),
        decision_of(row.decision, row.skip_reason, row.skip_newest_age_secs),
    ) {
        (Some(class), Ok(reviewed_identity), Some(decision)) => if 0 <= row.ordinal <= usize::MAX
            && row.reviewed_bytes >= 0 {
            Some(
                (
                    row.ordinal,
                    ReviewModel {
                        path: encode_utf8(row.project_path),
                        canonical_path: match row.canonical_project_path {
                            Some(path) => Some(encode_utf8(path)),
                            None => None,
                        },
                        class,
                        target_path: encode_utf8(row.target_path),
                        target_bytes: row.reviewed_bytes as u64,
                        reviewed_identity,
                        decision,
                    },
                ),
            )
        } else {
            None
        },
        _ => None,
    }
}

/// A review that can be stored is read back as it was written.
pub proof fn target_is_read_back(ordinal: i64, review: ReviewModel)
    requires
        storable(review),
        0 <= ordinal <= usize::MAX,
    ensures
        review_of_columns(target_columns(ordinal, review)) == Some((ordinal, review)),
{
    labels_are_read_back(review.decision, review.class);
    decode_utf8_encode_utf8(review.path);
    decode_utf8_encode_utf8(review.target_path);
    if let Some(path) = review.canonical_path {
        decode_utf8_encode_utf8(path);
    }
}

fn column(n: u64) -> (value: Option<i64>)
    ensures
        value == if fits_column(n) {
            Some(n as i64)
        } else {
            None
        },
{
    if n <= i64::MAX as u64 {
        Some(n as i64)
    } else {
        None
    }
}

/// The columns of a target: an error if a number does not fit or a path is not
/// text.
pub fn encode_target(ordinal: usize, review: &ProjectReview) -> (result: Result<TargetRow, StoreError>)
    ensures
        match target_fault(ordinal as int, review@) {
            Some(fault) => result matches Err(error) && error@ == fault,
            None => result matches Ok(row) && row@ == target_columns(ordinal as i64, review@),
        },
        result is Ok <==> storable(review@) && ordinal <= i64::MAX,
{
    let mut project_device: Option<i64> = None;
    let mut project_inode: Option<i64> = None;
    let mut project_mount_id: Option<String> = None;
    let mut target_device: Option<i64> = None;
    let mut target_inode: Option<i64> = None;
    let mut target_mount_id: Option<String> = None;
    let mut review_boot_session_id: Option<String> = None;
    match &review.reviewed_identity {
        Some(identity) => {
            match (
                column(identity.project.device),
                column(identity.project.inode),
                column(identity.target.device),
                column(identity.target.inode),
            ) {
                (Some(a), Some(b), Some(c), Some(d)) => {
                    project_device = Some(a);
                    project_inode = Some(b);
                    target_device = Some(c);
                    target_inode = Some(d);
                },
                _ => return Err(StoreError::OutOfRange),
            }
            project_mount_id = Some(identity.project.mount.0.clone());
            target_mount_id = Some(identity.target.mount.0.clone());
            match &identity.boot_session {
                Some(session) => {
                    review_boot_session_id = Some(session.0.clone());
                },
                None => {},
            }
        },
        None => {},
    }
    let reviewed_bytes: i64 = match column(review.target_bytes) {
        Some(bytes) => bytes,
        None => return Err(StoreError::BytesOutOfRange),
    };
    let (decision, reason, age) = decision_parts(&review.decision);
    let skip_newest_age_secs: Option<i64> = match age {
        Some(secs) => match column(secs) {
            Some(n) => Some(n),
            None => return Err(StoreError::AgeOutOfRange),
        },
        None => None,
    };
    if ordinal as u64 > i64::MAX as u64 {
        return Err(StoreError::OutOfRange);
    }
    let project_path = match path_to_string(&review.path) {
        Ok(text) => text,
        Err(error) => return Err(error),
    };
    let canonical_project_path = match &review.canonical_path {
        Some(path) => match path_to_string(path) {
            Ok(text) => Some(text),
            Err(error) => return Err(error),
        },
        None => None,
    };
    let target_path = match path_to_string(&review.target_path) {
        Ok(text) => text,
        Err(error) => return Err(error),
    };
    Ok(
        TargetRow {
            ordinal: ordinal as i64,
            project_path,
            canonical_project_path,
            project_class: project_class_label(review.class).to_owned(),
            target_path,
            project_device,
            project_inode,
            project_mount_id,
            target_device,
            target_inode,
            target_mount_id,
            review_boot_session_id,
            reviewed_bytes,
            decision: decision.to_owned(),
            skip_reason: match reason {
                Some(label) => Some(label.to_owned()),
                None => None,
            },
            skip_newest_age_secs,
        },
    )
}

/// The identities that the columns of a target stand for, or what is wrong with
/// them.
pub fn parse_reviewed_identity(row: &TargetRow) -> (result: Result<Option<ReviewedIdentity>, String>)
    ensures
        match identity_of_columns(row@) {
            Ok(Some(model)) => result matches Ok(Some(identity)) && identity@ == model,
            Ok(None) => result matches Ok(None),
            Err(_) => result matches Err(text) && text@ == identity_fault(row@),
        },
{
    if row.project_device.is_none() && row.project_inode.is_none() && row.project_mount_id.is_none()
        && row.target_device.is_none() && row.target_inode.is_none() && row.target_mount_id.is_none()
        && row.review_boot_session_id.is_none() {
        return Ok(None);
    }
    match (
        row.project_device,
        row.project_inode,
        &row.project_mount_id,
        row.target_device,
        row.target_inode,
        &row.target_mount_id,
    ) {
        (Some(a), Some(b), Some(m), Some(c), Some(d), Some(n)) => {
            if a < 0 {
                return Err("project device is out of range".to_owned());
            }
            if b < 0 {
                return Err("project inode is out of range".to_owned());
            }
            if c < 0 {
                return Err("target device is out of range".to_owned());
            }
            if d < 0 {
                return Err("target inode is out of range".to_owned());
            }
            let boot_session = match &row.review_boot_session_id {
                Some(session) => Some(BootSessionId(session.clone())),
                None => None,
            };
            Ok(
                Some(
                    ReviewedIdentity {
                        project: FilesystemIdentity {
                            device: a as u64,
                            inode: b as u64,
                            mount: MountIdentity(m.clone()),
                        },
                        target: FilesystemIdentity {
                            device: c as u64,
                            inode: d as u64,
                            mount: MountIdentity(n.clone()),
                        },
                        boot_session,
                    },
                ),
            )
        },
        _ => Err("persisted review identity is incomplete".to_owned()),
    }
}

/// The target that columns stand for, or what is wrong with them.
pub fn decode_target(row: &TargetRow) -> (target: Result<ReviewPlanTarget, String>)
    ensures
        match review_of_columns(row@) {
            Some((ordinal, review)) => target matches Ok(t) && t.ordinal == ordinal && t.review@ == review,
            None => target matches Err(text) && text@ == columns_fault(row@),
        },
{
    if row.ordinal < 0 || row.ordinal as u64 > usize::MAX as u64 {
        return Err("review-plan target ordinal is out of range".to_owned());
    }
    let class = match parse_project_class(row.project_class.as_str()) {
        Ok(class) => class,
        Err(text) => return Err(text),
    };
    let reviewed_identity = match parse_reviewed_identity(row) {
        Ok(identity) => identity,
        Err(text) => return Err(text),
    };
    if row.reviewed_bytes < 0 {
        return Err("reviewed target bytes are out of range".to_owned());
    }
    let decision = match parse_decision(row.decision.as_str(), &row.skip_reason, row.skip_newest_age_secs) {
        Ok(decision) => decision,
        Err(text) => return Err(text),
    };
    let canonical_path = match &row.canonical_project_path {
        Some(text) => Some(PathBuf::new(text.as_str())),
        None => None,
    };
    Ok(
        ReviewPlanTarget {
            ordinal: row.ordinal as usize,
            review: ProjectReview {
                path: PathBuf::new(row.project_path.as_str()),
                canonical_path,
                class,
                target_path: PathBuf::new(row.target_path.as_str()),
                target_bytes: row.reviewed_bytes as u64,
                reviewed_identity,
                decision,
            },
        },
    )
}

} // verus!
