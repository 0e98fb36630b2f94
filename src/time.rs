use vstd::prelude::*;

verus! {

/// A timestamp as carried on the wire: seconds and nanoseconds.
#[derive(Debug, Clone, Copy, PartialEq, Eq, Structural)]
pub struct Time {
    pub sec: i32,
    pub nsec: u32,
}

/// The instant as a signed count of nanoseconds.
pub open spec fn nanos(t: Time) -> int {
    t.sec * 1_000_000_000 + t.nsec
}

/// Whole milliseconds of a timestamp, truncated; instants before zero read as zero.
pub open spec fn msec_of(t: Time) -> int {
    if nanos(t) < 0 {
        0
    } else {
        nanos(t) / 1_000_000
    }
}

/// Whole microseconds of a timestamp, truncated; instants before zero read as zero.
pub open spec fn microsec_of(t: Time) -> int {
    if nanos(t) < 0 {
        0
    } else {
        nanos(t) / 1_000
    }
}

/// Whole milliseconds from `base` to `t`; zero when `t` is not after `base`.
pub open spec fn elapsed_ms(t: Time, base: Time) -> int {
    if nanos(t) - nanos(base) <= 0 {
        0
    } else {
        (nanos(t) - nanos(base)) / 1_000_000
    }
}

impl Time {
    /// The instant as nanoseconds, exactly.
    pub fn total_nanos(&self) -> (r: i64)
        ensures
            r == nanos(*self),
    {
        (self.sec as i64) * 1_000_000_000 + (self.nsec as i64)
    }

    /// Whole milliseconds, truncated toward zero; a negative instant gives zero.
    ///
    /// Computed exactly in integers, so it stays precise for every `sec`.
    pub fn msec(&self) -> (r: u64)
        ensures
            r == msec_of(*self),
    {
        let n = self.total_nanos();
        if n < 0 {
            0
        } else {
            (n as u64) / 1_000_000
        }
    }

    /// Whole microseconds, truncated toward zero; a negative instant gives zero.
    pub fn microsec(&self) -> (r: u64)
        ensures
            r == microsec_of(*self),
    {
        let n = self.total_nanos();
        if n < 0 {
            0
        } else {
            (n as u64) / 1_000
        }
    }

    /// Whether this is the zero instant (both fields zero).
    pub fn is_zero(&self) -> (r: bool)
        ensures
            r == (self.sec == 0 && self.nsec == 0),
    {
        self.sec == 0 && self.nsec == 0
    }

    /// Whole milliseconds elapsed since `base`; zero when `self` is not after `base`.
    pub fn millis_since(&self, base: &Time) -> (r: u64)
        ensures
            r == elapsed_ms(*self, *base),
    {
        let d = self.total_nanos() - base.total_nanos();
        if d <= 0 {
            0
        } else {
            (d as u64) / 1_000_000
        }
    }
}

} // verus!
