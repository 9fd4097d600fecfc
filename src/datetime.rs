//! The instant type, the elapsed-time type, and the arithmetic between them.
use vstd::prelude::*;

use crate::calendar::MAX_DAYS;

verus! {

/// Nanoseconds in a second.
pub const NANOS_PER_SEC: u32 = 1_000_000_000;

/// Seconds in a day.
pub const SECS_PER_DAY: i64 = 86400;

/// Largest distance from 1970-01-01T00:00:00Z, in seconds, of an instant held by a
/// `Datetime`: the instant's day then lies within `MAX_DAYS` of day 0.
pub const MAX_SECS: i64 = 431_999_999_999;

/// An instant in UTC: whole seconds since 1970-01-01T00:00:00Z and the
/// nanoseconds past that second. Fields order instants chronologically.
#[derive(Clone, Copy, Debug, PartialEq, Eq, Structural, PartialOrd, Ord, Hash)]
pub struct Datetime {
    pub secs: i64,
    pub nanos: u32,
}

/// A non-negative span of time.
#[derive(Clone, Copy, Debug, PartialEq, Eq, Structural, PartialOrd, Ord, Hash)]
pub struct Duration {
    pub secs: u64,
    pub nanos: u32,
}

impl Datetime {
    pub open spec fn wf(self) -> bool {
        -MAX_SECS <= self.secs <= MAX_SECS && self.nanos < NANOS_PER_SEC
    }

    /// The instant as nanoseconds since 1970-01-01T00:00:00Z.
    pub open spec fn total_nanos(self) -> int {
        self.secs * 1_000_000_000 + self.nanos
    }

    /// The day of the instant, 1970-01-01 being day 0.
    pub open spec fn day(self) -> int {
        self.secs as int / SECS_PER_DAY as int
    }

    /// Seconds since midnight of the instant's day.
    pub open spec fn second_of_day(self) -> int {
        self.secs as int % SECS_PER_DAY as int
    }

    /// The instant `v` seconds after 1970-01-01T00:00:00Z.
    pub fn from_secs(v: i64) -> (r: Datetime)
        requires
            -MAX_SECS <= v <= MAX_SECS,
        ensures
            r == (Datetime { secs: v, nanos: 0 }),
            r.wf(),
    {
        Datetime { secs: v, nanos: 0 }
    }

    /// The elapsed time from `other` to `self`; zero when `self` comes first.
    pub fn elapsed_since(self, other: Datetime) -> (r: Duration)
        requires
            self.wf(),
            other.wf(),
        ensures
            r == elapsed(self, other),
            r.wf(),
            r.total_nanos() == (if self.total_nanos() >= other.total_nanos() {
                self.total_nanos() - other.total_nanos()
            } else {
                0
            }),
    {
        if self.secs > other.secs || (self.secs == other.secs && self.nanos >= other.nanos) {
            if self.nanos >= other.nanos {
                Duration { secs: (self.secs - other.secs) as u64, nanos: self.nanos - other.nanos }
            } else {
                Duration {
                    secs: (self.secs - other.secs - 1) as u64,
                    nanos: self.nanos + NANOS_PER_SEC - other.nanos,
                }
            }
        } else {
            Duration { secs: 0, nanos: 0 }
        }
    }
}

/// The time from `b` to `a`, or no time when `a` comes first.
pub open spec fn elapsed(a: Datetime, b: Datetime) -> Duration {
    let d = a.total_nanos() - b.total_nanos();
    if d >= 0 {
        Duration { secs: (d / 1_000_000_000) as u64, nanos: (d % 1_000_000_000) as u32 }
    } else {
        Duration { secs: 0, nanos: 0 }
    }
}

impl core::ops::Sub for Datetime {
    type Output = Duration;

    /// `a - b` is the elapsed time from `b` to `a`: never negative, and zero
    /// when `a` comes first.
    fn sub(self, other: Datetime) -> (r: Duration) {
        self.elapsed_since(other)
    }
}

impl vstd::std_specs::ops::SubSpecImpl for Datetime {
    open spec fn obeys_sub_spec() -> bool {
        true
    }

    open spec fn sub_req(self, rhs: Datetime) -> bool {
        self.wf() && rhs.wf()
    }

    open spec fn sub_spec(self, rhs: Datetime) -> Duration {
        elapsed(self, rhs)
    }
}

impl Duration {
    pub open spec fn wf(self) -> bool {
        self.nanos < NANOS_PER_SEC
    }

    pub open spec fn total_nanos(self) -> int {
        self.secs * 1_000_000_000 + self.nanos
    }

    /// The span of no time at all.
    pub fn zero() -> (r: Duration)
        ensures
            r.wf(),
            r.total_nanos() == 0,
    {
        Duration { secs: 0, nanos: 0 }
    }
}

/// Relies on chrono's `impl From<SystemTime> for DateTime<Utc>`, applied to the
/// system clock, read as whole seconds (`timestamp`) and the nanoseconds past
/// them (`timestamp_subsec_nanos`). chrono takes a clock before 1970 as a
/// negative count of seconds, and its nanoseconds come from `subsec_nanos` (or
/// `1_000_000_000 - subsec_nanos` for a positive `subsec_nanos`), so they are
/// below one second. Nothing else is promised of the reading.
#[verifier::external_body]
fn clock_now() -> (r: (i64, u32))
    ensures
        r.1 < NANOS_PER_SEC,
{
    let t = chrono::DateTime::<chrono::Utc>::from(std::time::SystemTime::now());
    (t.timestamp(), t.timestamp_subsec_nanos())
}

/// The seconds of a clock reading, brought into the range of `Datetime`.
pub open spec fn clamp_secs(s: i64) -> i64 {
    if s > MAX_SECS {
        MAX_SECS
    } else if s < -MAX_SECS {
        (-MAX_SECS) as i64
    } else {
        s
    }
}

/// The nanoseconds of a clock reading; a leap second's count past one second
/// becomes the last nanosecond of the second.
pub open spec fn clamp_nanos(n: u32) -> u32 {
    if n >= NANOS_PER_SEC {
        (NANOS_PER_SEC - 1) as u32
    } else {
        n
    }
}

impl Datetime {
    /// The instant of a clock reading of `s` seconds and `n` nanoseconds since
    /// 1970-01-01T00:00:00Z. A reading outside the range of `Datetime` is brought
    /// to its nearest end.
    pub fn from_clock_reading(s: i64, n: u32) -> (r: Datetime)
        ensures
            r.secs == clamp_secs(s),
            r.nanos == clamp_nanos(n),
            r.wf(),
            -MAX_SECS <= s <= MAX_SECS && n < NANOS_PER_SEC ==> r == (Datetime { secs: s, nanos: n }),
    {
        let secs = if s > MAX_SECS {
            MAX_SECS
        } else if s < -MAX_SECS {
            -MAX_SECS
        } else {
            s
        };
        let nanos = if n >= NANOS_PER_SEC {
            NANOS_PER_SEC - 1
        } else {
            n
        };
        Datetime { secs, nanos }
    }
}

impl Default for Datetime {
    /// The instant at which it is called, read from the system clock and taken
    /// as `from_clock_reading` takes it.
    fn default() -> (r: Datetime)
        ensures
            r.wf(),
    {
        let (s, n) = clock_now();
        Datetime::from_clock_reading(s, n)
    }
}

} // verus!
