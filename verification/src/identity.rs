//! What makes a directory the same directory as before: its place in the file
//! system and the boot session in which it was seen.

use crate::text::{chars_of, decimal, decimal_text, string_of, trim_chars, trimmed};
use vstd::prelude::*;

verus! {

/// The mount that a file lies on.
#[derive(Debug, PartialEq, Eq)]
pub struct MountIdentity(pub String);

/// Device, inode and mount of a file.
#[derive(Debug)]
pub struct FilesystemIdentity {
    pub device: u64,
    pub inode: u64,
    pub mount: MountIdentity,
}

/// The boot session of the machine.
#[derive(Debug)]
pub struct BootSessionId(pub String);

/// The identities that a review saw.
#[derive(Debug)]
pub struct ReviewedIdentity {
    pub project: FilesystemIdentity,
    pub target: FilesystemIdentity,
    pub boot_session: Option<BootSessionId>,
}

/// How an observed identity relates to the current one.
#[derive(Debug, Clone, Copy, PartialEq, Eq, Structural)]
pub enum IdentityComparison {
    Matches,
    StaleAcrossBoot,
    Replaced,
}

/// The contents of a file identity.
pub struct IdentityModel {
    pub device: u64,
    pub inode: u64,
    pub mount: Seq<char>,
}

/// The contents of a reviewed identity.
pub struct ReviewedModel {
    pub project: IdentityModel,
    pub target: IdentityModel,
    pub boot_session: Option<Seq<char>>,
}

impl View for FilesystemIdentity {
    type V = IdentityModel;

    open spec fn view(&self) -> IdentityModel {
        IdentityModel { device: self.device, inode: self.inode, mount: self.mount.0@ }
    }
}

/// The text of an optional boot session.
pub open spec fn session_text(session: Option<BootSessionId>) -> Option<Seq<char>> {
    match session {
        Some(s) => Some(s.0@),
        None => None,
    }
}

impl View for ReviewedIdentity {
    type V = ReviewedModel;

    open spec fn view(&self) -> ReviewedModel {
        ReviewedModel {
            project: self.project@,
            target: self.target@,
            boot_session: session_text(self.boot_session),
        }
    }
}

/// Whether two identities are those of one file.
pub open spec fn same_file(a: FilesystemIdentity, b: FilesystemIdentity) -> bool {
    a.device == b.device && a.inode == b.inode && a.mount.0@ == b.mount.0@
}

/// Whether two boot sessions, where known, are the same; an unknown session is
/// the same only as an unknown one.
pub open spec fn same_session(a: Option<BootSessionId>, b: Option<BootSessionId>) -> bool {
    match (a, b) {
        (Some(x), Some(y)) => x.0@ == y.0@,
        (None, None) => true,
        _ => false,
    }
}

/// Whether two reviews saw the same files in the same session.
pub open spec fn same_review_identity(a: ReviewedIdentity, b: ReviewedIdentity) -> bool {
    same_file(a.project, b.project) && same_file(a.target, b.target) && same_session(
        a.boot_session,
        b.boot_session,
    )
}

impl Clone for FilesystemIdentity {
    fn clone(&self) -> (copy: Self)
        ensures
            copy == *self,
    {
        FilesystemIdentity {
            device: self.device,
            inode: self.inode,
            mount: MountIdentity(self.mount.0.clone()),
        }
    }
}

impl Clone for BootSessionId {
    fn clone(&self) -> (copy: Self)
        ensures
            copy == *self,
    {
        BootSessionId(self.0.clone())
    }
}

/// A copy of an optional boot session.
pub fn copy_session(session: &Option<BootSessionId>) -> (copy: Option<BootSessionId>)
    ensures
        copy == *session,
{
    match session {
        Some(s) => Some(s.clone()),
        None => None,
    }
}

impl Clone for ReviewedIdentity {
    fn clone(&self) -> (copy: Self)
        ensures
            copy == *self,
    {
        ReviewedIdentity {
            project: self.project.clone(),
            target: self.target.clone(),
            boot_session: copy_session(&self.boot_session),
        }
    }
}

impl PartialEq for FilesystemIdentity {
    fn eq(&self, other: &Self) -> (equal: bool) {
        self.device == other.device && self.inode == other.inode && self.mount.0 == other.mount.0
    }
}

impl vstd::std_specs::cmp::PartialEqSpecImpl for FilesystemIdentity {
    open spec fn obeys_eq_spec() -> bool {
        true
    }

    open spec fn eq_spec(&self, other: &Self) -> bool {
        same_file(*self, *other)
    }
}

impl Eq for FilesystemIdentity {

}

impl PartialEq for BootSessionId {
    fn eq(&self, other: &Self) -> (equal: bool) {
        self.0 == other.0
    }
}

impl vstd::std_specs::cmp::PartialEqSpecImpl for BootSessionId {
    open spec fn obeys_eq_spec() -> bool {
        true
    }

    open spec fn eq_spec(&self, other: &Self) -> bool {
        self.0@ == other.0@
    }
}

impl Eq for BootSessionId {

}

/// Whether two optional boot sessions are the same.
pub fn sessions_equal(a: &Option<BootSessionId>, b: &Option<BootSessionId>) -> (equal: bool)
    ensures
        equal == same_session(*a, *b),
{
    match (a, b) {
        (Some(x), Some(y)) => x.0 == y.0,
        (None, None) => true,
        _ => false,
    }
}

impl PartialEq for ReviewedIdentity {
    fn eq(&self, other: &Self) -> (equal: bool) {
        self.project == other.project && self.target == other.target && sessions_equal(
            &self.boot_session,
            &other.boot_session,
        )
    }
}

impl vstd::std_specs::cmp::PartialEqSpecImpl for ReviewedIdentity {
    open spec fn obeys_eq_spec() -> bool {
        true
    }

    open spec fn eq_spec(&self, other: &Self) -> bool {
        same_review_identity(*self, *other)
    }
}

impl Eq for ReviewedIdentity {

}

/// How a persisted identity compares to the current one. Identities of two known
/// and different boot sessions are not comparable.
pub open spec fn comparison(
    observed_boot: Option<BootSessionId>,
    current_boot: Option<BootSessionId>,
    observed: FilesystemIdentity,
    current: FilesystemIdentity,
) -> IdentityComparison {
    if observed_boot is Some && current_boot is Some && !same_session(observed_boot, current_boot) {
        IdentityComparison::StaleAcrossBoot
    } else if same_file(observed, current) {
        IdentityComparison::Matches
    } else {
        IdentityComparison::Replaced
    }
}

/// Compares a persisted identity with the current one.
pub fn compare_persisted(
    observed_boot: &Option<BootSessionId>,
    current_boot: &Option<BootSessionId>,
    observed: &FilesystemIdentity,
    current: &FilesystemIdentity,
) -> (result: IdentityComparison)
    ensures
        result == comparison(*observed_boot, *current_boot, *observed, *current),
{
    match (observed_boot, current_boot) {
        (Some(before), Some(now)) => {
            if before.0 != now.0 {
                return IdentityComparison::StaleAcrossBoot;
            }
        },
        _ => {},
    }
    if *observed == *current {
        IdentityComparison::Matches
    } else {
        IdentityComparison::Replaced
    }
}

/// Whether a character is a hexadecimal digit.
pub open spec fn is_hex_digit(c: char) -> bool {
    '0' <= c <= '9' || 'a' <= c <= 'f' || 'A' <= c <= 'F'
}

/// Whether a text has the shape of a UUID: five groups of hexadecimal digits,
/// of 8, 4, 4, 4 and 12, with hyphens between them.
pub open spec fn is_uuid(s: Seq<char>) -> bool {
    &&& s.len() == 36
    &&& forall|i: int|
        0 <= i < 36 ==> if i == 8 || i == 13 || i == 18 || i == 23 {
            #[trigger] s[i] == '-'
        } else {
            is_hex_digit(s[i])
        }
}

/// The boot session that a read of the kernel's boot identifier gives: the text
/// without surrounding whitespace, if it is a UUID.
pub fn linux_boot_session_from_read<E>(read: Result<String, E>) -> (session: Option<BootSessionId>)
    ensures
        session is Some <==> read is Ok && is_uuid(trimmed(read->Ok_0@)),
        session matches Some(s) ==> s.0@ == trimmed(read->Ok_0@),
{
    let value = match read {
        Ok(value) => value,
        Err(_) => return None,
    };
    let chars = trim_chars(chars_of(value.as_str()).as_slice());
    if chars.len() != 36 {
        return None;
    }
    let mut i: usize = 0;
    while i < 36
        invariant
            i <= 36,
            chars@.len() == 36,
            read is Ok,
            read->Ok_0@ == value@,
            chars@ == trimmed(value@),
            forall|k: int|
                0 <= k < i ==> if k == 8 || k == 13 || k == 18 || k == 23 {
                    #[trigger] chars@[k] == '-'
                } else {
                    is_hex_digit(chars@[k])
                },
        decreases 36 - i,
    {
        let c = chars[i];
        let hyphen = i == 8 || i == 13 || i == 18 || i == 23;
        let hex = ('0' <= c && c <= '9') || ('a' <= c && c <= 'f') || ('A' <= c && c <= 'F');
        if (hyphen && c != '-') || (!hyphen && !hex) {
            assert(!is_uuid(chars@)) by {
                assert(chars@[i as int] == c);
            }
            return None;
        }
        i += 1;
    }
    Some(BootSessionId(string_of(chars.as_slice())))
}

/// Seconds and microseconds, as the system reports the time of the last boot.
#[derive(Debug, Clone, Copy, PartialEq, Eq, Structural)]
pub struct BootTime {
    pub tv_sec: i64,
    pub tv_usec: i64,
}

/// The size in bytes of the system's record of the boot time.
pub const BOOT_TIME_LENGTH: usize = 16;

/// Whether a boot time is one: not before the epoch, with fewer microseconds
/// than a second has.
pub open spec fn is_boot_time(boot_time: BootTime) -> bool {
    boot_time.tv_sec >= 0 && 0 <= boot_time.tv_usec < 1_000_000
}

/// The boot session named by a boot time.
pub open spec fn boot_time_text(boot_time: BootTime) -> Seq<char> {
    decimal(boot_time.tv_sec as nat) + ":"@ + decimal(boot_time.tv_usec as nat)
}

/// The boot session that a query for the boot time gives. The query must have
/// succeeded and filled the whole record.
pub fn macos_boot_session_from_sysctl_result(
    result: i32,
    length: usize,
    boot_time: Option<BootTime>,
) -> (session: Option<BootSessionId>)
    ensures
        session is Some <==> result == 0 && length == BOOT_TIME_LENGTH && boot_time is Some
            && is_boot_time(boot_time->0),
        session matches Some(s) ==> s.0@ == boot_time_text(boot_time->0),
{
    if result != 0 || length != BOOT_TIME_LENGTH {
        return None;
    }
    match boot_time {
        Some(boot_time) => macos_boot_session_from_timeval(boot_time),
        None => None,
    }
}

/// The boot session named by a boot time, if it is one.
pub fn macos_boot_session_from_timeval(boot_time: BootTime) -> (session: Option<BootSessionId>)
    ensures
        session is Some <==> is_boot_time(boot_time),
        session matches Some(s) ==> s.0@ == boot_time_text(boot_time),
{
    if boot_time.tv_sec < 0 || boot_time.tv_usec < 0 || boot_time.tv_usec >= 1_000_000 {
        return None;
    }
    let mut text = decimal_text(boot_time.tv_sec as u128);
    text.append(":");
    text.append(decimal_text(boot_time.tv_usec as u128).as_str());
    Some(BootSessionId(text))
}

/// Comparing in one known session, or with an unknown session on either side,
/// decides by the files alone; two known and different sessions never match.
pub proof fn comparison_laws(
    observed_boot: Option<BootSessionId>,
    current_boot: Option<BootSessionId>,
    observed: FilesystemIdentity,
    current: FilesystemIdentity,
)
    ensures
        comparison(observed_boot, observed_boot, observed, observed) == IdentityComparison::Matches,
        observed_boot is None || current_boot is None ==> comparison(
            observed_boot,
            current_boot,
            observed,
            current,
        ) != IdentityComparison::StaleAcrossBoot,
        comparison(observed_boot, current_boot, observed, current) == IdentityComparison::Matches
            ==> same_file(observed, current),
        comparison(observed_boot, current_boot, observed, current) == comparison(
            current_boot,
            observed_boot,
            current,
            observed,
        ),
{
}

/// A boot identifier is five groups of hexadecimal digits, of eight, four, four, four and
/// twelve, with dashes between them.
pub proof fn boot_identifiers_have_five_groups(a: Seq<char>, b: Seq<char>, c: Seq<char>, d: Seq<char>, e: Seq<char>)
    requires
        a.len() == 8,
        b.len() == 4,
        c.len() == 4,
        d.len() == 4,
        e.len() == 12,
    ensures
        is_uuid(a.push('-') + b.push('-') + c.push('-') + d.push('-') + e) <==> (forall|i: int|
            0 <= i < 8 ==> is_hex_digit(#[trigger] a[i])) && (forall|i: int| 0 <= i < 4 ==> is_hex_digit(#[trigger] b[i])) && (
        forall|i: int| 0 <= i < 4 ==> is_hex_digit(#[trigger] c[i])) && (forall|i: int|
            0 <= i < 4 ==> is_hex_digit(#[trigger] d[i])) && (forall|i: int| 0 <= i < 12 ==> is_hex_digit(#[trigger] e[i])),
{
    let s = a.push('-') + b.push('-') + c.push('-') + d.push('-') + e;
    assert forall|i: int| 0 <= i < 8 implies s[i] == #[trigger] a[i] by {}
    assert forall|i: int| 0 <= i < 4 implies s[i + 9] == #[trigger] b[i] by {}
    assert forall|i: int| 0 <= i < 4 implies s[i + 14] == #[trigger] c[i] by {}
    assert forall|i: int| 0 <= i < 4 implies s[i + 19] == #[trigger] d[i] by {}
    assert forall|i: int| 0 <= i < 12 implies s[i + 24] == #[trigger] e[i] by {}
    assert(s[8] == '-' && s[13] == '-' && s[18] == '-' && s[23] == '-');
    if is_uuid(s) {
        assert forall|i: int| 0 <= i < 8 implies is_hex_digit(#[trigger] a[i]) by {
            assert(is_hex_digit(s[i]));
        }
        assert forall|i: int| 0 <= i < 4 implies is_hex_digit(#[trigger] b[i]) by {
            assert(is_hex_digit(s[i + 9]));
        }
        assert forall|i: int| 0 <= i < 4 implies is_hex_digit(#[trigger] c[i]) by {
            assert(is_hex_digit(s[i + 14]));
        }
        assert forall|i: int| 0 <= i < 4 implies is_hex_digit(#[trigger] d[i]) by {
            assert(is_hex_digit(s[i + 19]));
        }
        assert forall|i: int| 0 <= i < 12 implies is_hex_digit(#[trigger] e[i]) by {
            assert(is_hex_digit(s[i + 24]));
        }
    }
    if (forall|i: int| 0 <= i < 8 ==> is_hex_digit(#[trigger] a[i])) && (forall|i: int|
        0 <= i < 4 ==> is_hex_digit(#[trigger] b[i])) && (forall|i: int| 0 <= i < 4 ==> is_hex_digit(#[trigger] c[i])) && (
    forall|i: int| 0 <= i < 4 ==> is_hex_digit(#[trigger] d[i])) && (forall|i: int|
        0 <= i < 12 ==> is_hex_digit(#[trigger] e[i])) {
        assert forall|i: int| 0 <= i < 36 implies if i == 8 || i == 13 || i == 18 || i == 23 {
            #[trigger] s[i] == '-'
        } else {
            is_hex_digit(s[i])
        } by {
            if i < 8 {
                assert(is_hex_digit(a[i]));
            } else if 8 < i < 13 {
                assert(is_hex_digit(b[i - 9]));
            } else if 13 < i < 18 {
                assert(is_hex_digit(c[i - 14]));
            } else if 18 < i < 23 {
                assert(is_hex_digit(d[i - 19]));
            } else if 23 < i {
                assert(is_hex_digit(e[i - 24]));
            }
        }
    }
}

} // verus!
