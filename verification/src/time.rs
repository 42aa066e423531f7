//! Points in time and spans of time, with nanosecond resolution.

use vstd::prelude::*;

verus! {

/// Nanoseconds in a second.
pub const NANOS_PER_SEC: u32 = 1_000_000_000;

/// Nanoseconds in a millisecond.
pub const NANOS_PER_MILLI: u32 = 1_000_000;

/// A span of time, counted in nanoseconds by its view.
#[derive(Debug, Clone, Copy, PartialEq, Eq, PartialOrd, Ord, Structural)]
pub struct Duration {
    secs: u64,
    nanos: u32,
}

/// A point in time, counted by its view in nanoseconds since the epoch; points
/// before the epoch are negative.
#[derive(Debug, Clone, Copy, PartialEq, Eq, PartialOrd, Ord, Structural)]
pub struct SystemTime {
    secs: i64,
    nanos: u32,
}

impl View for Duration {
    type V = nat;

    closed spec fn view(&self) -> nat {
        self.secs as nat * 1_000_000_000 + self.nanos as nat
    }
}

impl View for SystemTime {
    type V = int;

    closed spec fn view(&self) -> int {
        self.secs * 1_000_000_000 + self.nanos
    }
}

/// Whether a count of nanoseconds since the epoch is a point in time that can
/// be represented.
pub open spec fn representable(nanos: int) -> bool {
    i64::MIN * 1_000_000_000 <= nanos < (i64::MAX + 1) * 1_000_000_000
}

impl Duration {
    #[verifier::type_invariant]
    spec fn nanos_below_a_second(self) -> bool {
        self.nanos < 1_000_000_000
    }

    /// A span of whole seconds.
    pub fn from_secs(secs: u64) -> (span: Duration)
        ensures
            span@ == secs as nat * 1_000_000_000,
    {
        Duration { secs, nanos: 0 }
    }

    /// A span of whole milliseconds.
    pub fn from_millis(millis: u64) -> (span: Duration)
        ensures
            span@ == millis as nat * 1_000_000,
    {
        let nanos: u32 = ((millis % 1000) as u32) * NANOS_PER_MILLI;
        Duration { secs: millis / 1000, nanos }
    }

    /// A span of seconds and further nanoseconds; `None` unless these are fewer
    /// than a second.
    pub fn from_parts(secs: u64, nanos: u32) -> (span: Option<Duration>)
        ensures
            span is Some <==> nanos < 1_000_000_000,
            span matches Some(d) ==> d@ == secs as nat * 1_000_000_000 + nanos as nat,
    {
        if nanos < NANOS_PER_SEC {
            Some(Duration { secs, nanos })
        } else {
            None
        }
    }

    /// The whole seconds of the span.
    pub fn as_secs(&self) -> (secs: u64)
        ensures
            secs == self@ / 1_000_000_000,
    {
        proof {
            use_type_invariant(self);
        }
        self.secs
    }

    /// The nanoseconds of the span beyond its whole seconds.
    pub fn subsec_nanos(&self) -> (nanos: u32)
        ensures
            nanos == self@ % 1_000_000_000,
    {
        proof {
            use_type_invariant(self);
        }
        self.nanos
    }

    /// The whole milliseconds of the span.
    pub fn as_millis(&self) -> (millis: u128)
        ensures
            millis == self@ / 1_000_000,
    {
        proof {
            use_type_invariant(self);
        }
        let secs: u128 = self.secs as u128;
        let rest: u128 = (self.nanos / NANOS_PER_MILLI) as u128;
        secs * 1000 + rest
    }

    /// Whether the span has no length.
    pub fn is_zero(&self) -> (zero: bool)
        ensures
            zero == (self@ == 0),
    {
        self.secs == 0 && self.nanos == 0
    }

    /// Whether this span is shorter than the other.
    pub fn is_shorter(&self, other: &Duration) -> (shorter: bool)
        ensures
            shorter == (self@ < other@),
    {
        proof {
            use_type_invariant(self);
            use_type_invariant(other);
        }
        self.secs < other.secs || (self.secs == other.secs && self.nanos < other.nanos)
    }
}

impl SystemTime {
    #[verifier::type_invariant]
    spec fn nanos_below_a_second(self) -> bool {
        self.nanos < 1_000_000_000
    }

    /// The epoch.
    pub fn epoch() -> (time: SystemTime)
        ensures
            time@ == 0,
    {
        SystemTime { secs: 0, nanos: 0 }
    }

    /// The point `secs` seconds and `nanos` nanoseconds after the epoch; `None`
    /// unless the nanoseconds are fewer than a second.
    pub fn from_parts(secs: i64, nanos: u32) -> (time: Option<SystemTime>)
        ensures
            time is Some <==> nanos < 1_000_000_000,
            time matches Some(t) ==> t@ == secs * 1_000_000_000 + nanos,
    {
        if nanos < NANOS_PER_SEC {
            Some(SystemTime { secs, nanos })
        } else {
            None
        }
    }

    /// The point a whole number of seconds after the epoch.
    pub fn from_secs(secs: i64) -> (time: SystemTime)
        ensures
            time@ == secs * 1_000_000_000,
    {
        SystemTime { secs, nanos: 0 }
    }

    /// The whole seconds since the epoch, rounded down.
    pub fn secs(&self) -> (secs: i64)
        ensures
            secs == self@ / 1_000_000_000,
    {
        proof {
            use_type_invariant(self);
        }
        self.secs
    }

    /// The nanoseconds beyond the whole seconds.
    pub fn subsec_nanos(&self) -> (nanos: u32)
        ensures
            nanos == self@ % 1_000_000_000,
    {
        proof {
            use_type_invariant(self);
        }
        self.nanos
    }

    /// Whether this point comes before the other.
    pub fn is_before(&self, other: &SystemTime) -> (before: bool)
        ensures
            before == (self@ < other@),
    {
        proof {
            use_type_invariant(self);
            use_type_invariant(other);
        }
        self.secs < other.secs || (self.secs == other.secs && self.nanos < other.nanos)
    }

    /// Whether the two points are the same.
    pub fn is_same(&self, other: &SystemTime) -> (same: bool)
        ensures
            same == (self@ == other@),
    {
        proof {
            use_type_invariant(self);
            use_type_invariant(other);
        }
        self.secs == other.secs && self.nanos == other.nanos
    }

    /// The point a span later, if it can be represented.
    pub fn checked_add(&self, span: Duration) -> (time: Option<SystemTime>)
        ensures
            time is Some <==> representable(self@ + span@),
            time matches Some(t) ==> t@ == self@ + span@,
    {
        proof {
            use_type_invariant(self);
            use_type_invariant(&span);
        }
        let mut nanos: u32 = self.nanos + span.nanos;
        let mut secs: i128 = self.secs as i128 + span.secs as i128;
        if nanos >= NANOS_PER_SEC {
            nanos = nanos - NANOS_PER_SEC;
            secs = secs + 1;
        }
        if secs <= i64::MAX as i128 {
            Some(SystemTime { secs: secs as i64, nanos })
        } else {
            None
        }
    }

    /// The point a span earlier, if it can be represented.
    pub fn checked_sub(&self, span: Duration) -> (time: Option<SystemTime>)
        ensures
            time is Some <==> representable(self@ - span@),
            time matches Some(t) ==> t@ == self@ - span@,
    {
        proof {
            use_type_invariant(self);
            use_type_invariant(&span);
        }
        let mut secs: i128 = self.secs as i128 - span.secs as i128;
        let nanos: u32 = if self.nanos >= span.nanos {
            self.nanos - span.nanos
        } else {
            secs = secs - 1;
            self.nanos + NANOS_PER_SEC - span.nanos
        };
        if secs >= i64::MIN as i128 {
            Some(SystemTime { secs: secs as i64, nanos })
        } else {
            None
        }
    }

    /// The span since an earlier point; `None` if that point is later.
    pub fn duration_since(&self, earlier: &SystemTime) -> (span: Option<Duration>)
        ensures
            span is Some <==> self@ >= earlier@,
            span matches Some(d) ==> d@ == self@ - earlier@,
    {
        proof {
            use_type_invariant(self);
            use_type_invariant(earlier);
        }
        if self.is_before(earlier) {
            return None;
        }
        let mut secs: i128 = self.secs as i128 - earlier.secs as i128;
        let nanos: u32 = if self.nanos >= earlier.nanos {
            self.nanos - earlier.nanos
        } else {
            secs = secs - 1;
            self.nanos + NANOS_PER_SEC - earlier.nanos
        };
        Some(Duration { secs: secs as u64, nanos })
    }
}

} // verus!
