//! Points in time on a reference clock that counts nanoseconds.

use ::prost_types::Timestamp;
use std::time::Duration;
use vstd::prelude::*;

verus! {

/// `Timestamp` of the `prost-types` crate. Verus sees nothing inside it.
#[verifier::external_type_specification]
#[verifier::external_body]
pub struct ExTimestamp(Timestamp);

/// The length of a duration in whole nanoseconds, as `Duration::as_nanos` reports it.
pub uninterp spec fn duration_nanos(d: Duration) -> u128;

/// `Duration::from_nanos`: the duration that lasts exactly `nanos` nanoseconds.
#[verifier::external_body]
fn duration_from_nanos(nanos: u64) -> (d: Duration)
    ensures
        duration_nanos(d) == nanos,
{
    Duration::from_nanos(nanos)
}

/// `Duration::as_nanos`: the whole length of `d` in nanoseconds.
#[verifier::external_body]
fn duration_as_nanos(d: &Duration) -> (nanos: u128)
    ensures
        nanos == duration_nanos(*d),
{
    d.as_nanos()
}

/// A point in time, held as the nanoseconds that the reference clock had counted.
#[derive(Clone, Copy, Debug, PartialEq, Eq, PartialOrd, Ord, Structural)]
pub struct Instant(pub u64);

impl Instant {
    /// The instant at which the reference clock showed `reading`.
    pub fn now(reading: u64) -> (t: Instant)
        ensures
            t.0 == reading,
    {
        Instant(reading)
    }

    /// The most recently published instant. A published value of zero means that none
    /// has been published yet, and the clock's own `reading` is used in its place.
    pub fn recent(published: u64, reading: u64) -> (t: Instant)
        ensures
            t.0 == if published != 0 { published } else { reading },
    {
        if published != 0 {
            Instant(published)
        } else {
            Instant(reading)
        }
    }

    /// The time that passed from `earlier` to `self`.
    pub fn duration_since(&self, earlier: Instant) -> (d: Duration)
        requires
            earlier.0 <= self.0,
        ensures
            duration_nanos(d) == self.0 - earlier.0,
    {
        duration_from_nanos(self.0 - earlier.0)
    }

    /// The time that passed from `earlier` to `self`, or `None` where `earlier` is the
    /// later of the two.
    pub fn checked_duration_since(&self, earlier: Instant) -> (r: Option<Duration>)
        ensures
            r.is_some() <==> earlier.0 <= self.0,
            r matches Some(d) ==> duration_nanos(d) == self.0 - earlier.0,
    {
        if earlier.0 <= self.0 {
            Some(duration_from_nanos(self.0 - earlier.0))
        } else {
            None
        }
    }

    /// The time that passed from `earlier` to `self`, or no time at all where `earlier`
    /// is the later of the two.
    pub fn saturating_duration_since(&self, earlier: Instant) -> (d: Duration)
        ensures
            duration_nanos(d) == if earlier.0 <= self.0 { self.0 - earlier.0 } else { 0 },
    {
        if earlier.0 <= self.0 {
            duration_from_nanos(self.0 - earlier.0)
        } else {
            duration_from_nanos(0)
        }
    }

    /// The nanoseconds of `d` as the clock counts them: the low 64 bits of its length.
    pub open spec fn ticks(d: Duration) -> u64 {
        (duration_nanos(d) % 0x1_0000_0000_0000_0000) as u64
    }

    /// `self` moved forward by `duration`, or `None` where the clock cannot count that far.
    pub fn checked_add(&self, duration: Duration) -> (r: Option<Instant>)
        ensures
            r.is_some() <==> self.0 + Self::ticks(duration) <= u64::MAX,
            r matches Some(t) ==> t.0 == self.0 + Self::ticks(duration),
    {
        let nanos: u128 = duration_as_nanos(&duration);
        let ticks: u64 = (nanos % 0x1_0000_0000_0000_0000) as u64;
        match self.0.checked_add(ticks) {
            Some(sum) => Some(Instant(sum)),
            None => None,
        }
    }

    /// `self` moved back by `duration`, or `None` where that lies before the clock's start.
    pub fn checked_sub(&self, duration: Duration) -> (r: Option<Instant>)
        ensures
            r.is_some() <==> Self::ticks(duration) <= self.0,
            r matches Some(t) ==> t.0 == self.0 - Self::ticks(duration),
    {
        let nanos: u128 = duration_as_nanos(&duration);
        let ticks: u64 = (nanos % 0x1_0000_0000_0000_0000) as u64;
        match self.0.checked_sub(ticks) {
            Some(diff) => Some(Instant(diff)),
            None => None,
        }
    }
}

impl vstd::std_specs::ops::AddSpecImpl<Duration> for Instant {
    open spec fn obeys_add_spec() -> bool {
        true
    }

    open spec fn add_req(self, rhs: Duration) -> bool {
        self.0 + Instant::ticks(rhs) <= u64::MAX
    }

    open spec fn add_spec(self, rhs: Duration) -> Instant {
        Instant((self.0 + Instant::ticks(rhs)) as u64)
    }
}

impl std::ops::Add<Duration> for Instant {
    type Output = Instant;

    /// `self` moved forward by `other`, which the clock must be able to count.
    fn add(self, other: Duration) -> (r: Instant) {
        let nanos: u128 = duration_as_nanos(&other);
        Instant(self.0 + (nanos % 0x1_0000_0000_0000_0000) as u64)
    }
}

impl vstd::std_specs::ops::SubSpecImpl<Duration> for Instant {
    open spec fn obeys_sub_spec() -> bool {
        true
    }

    open spec fn sub_req(self, rhs: Duration) -> bool {
        Instant::ticks(rhs) <= self.0
    }

    open spec fn sub_spec(self, rhs: Duration) -> Instant {
        Instant((self.0 - Instant::ticks(rhs)) as u64)
    }
}

impl std::ops::Sub<Duration> for Instant {
    type Output = Instant;

    /// `self` moved back by `other`, which must not lead before the clock's start.
    fn sub(self, other: Duration) -> (r: Instant) {
        let nanos: u128 = duration_as_nanos(&other);
        Instant(self.0 - (nanos % 0x1_0000_0000_0000_0000) as u64)
    }
}

impl vstd::std_specs::ops::SubSpecImpl<Instant> for Instant {
    open spec fn obeys_sub_spec() -> bool {
        false
    }

    open spec fn sub_req(self, rhs: Instant) -> bool {
        rhs.0 <= self.0
    }

    open spec fn sub_spec(self, rhs: Instant) -> Duration {
        arbitrary()
    }
}

impl std::ops::Sub<Instant> for Instant {
    type Output = Duration;

    /// The time that passed from `other` to `self`; `other` must not be the later.
    fn sub(self, other: Instant) -> (d: Duration)
        ensures
            duration_nanos(d) == self.0 - other.0,
    {
        self.duration_since(other)
    }
}

/// What a timestamp holds: its seconds, and its nanoseconds beyond them.
pub uninterp spec fn timestamp_parts(t: Timestamp) -> (i64, i32);

/// A `Timestamp` of `prost-types` with these two fields.
#[verifier::external_body]
fn timestamp_of(seconds: i64, nanos: i32) -> (t: Timestamp)
    ensures
        timestamp_parts(t) == (seconds, nanos),
{
    Timestamp { seconds, nanos }
}

impl Instant {
    /// The instant as a timestamp: the whole seconds that the clock had counted, and
    /// the nanoseconds beyond them.
    pub fn into_timestamp(self) -> (t: Timestamp)
        ensures
            timestamp_parts(t) == ((self.0 / 1_000_000_000) as i64, (self.0 % 1_000_000_000) as i32),
    {
        let whole: u64 = self.0 / 1_000_000_000;
        let beyond: u64 = self.0 % 1_000_000_000;
        let secs: i64 = if whole > 0x7FFF_FFFF_FFFF_FFFF {
            0x7FFF_FFFF_FFFF_FFFF
        } else {
            whole as i64
        };
        let nsecs: i32 = if beyond > 0x7FFF_FFFF {
            0x7FFF_FFFF
        } else {
            beyond as i32
        };
        timestamp_of(secs, nsecs)
    }
}

} // verus!
