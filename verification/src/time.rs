//! A length of time with nanosecond precision, as carried by tracks.

use vstd::prelude::*;

verus! {

/// Whole seconds plus a sub-second part in nanoseconds (below one second).
#[derive(Debug, Clone, Copy, PartialEq, Eq, Structural)]
pub struct Duration {
    secs: u64,
    nanos: u32,
}

impl Duration {
    /// The whole seconds.
    pub closed spec fn secs_view(self) -> u64 {
        self.secs
    }

    /// The sub-second part, in nanoseconds.
    pub closed spec fn nanos_view(self) -> u32 {
        self.nanos
    }

    /// A duration of `secs` whole seconds.
    pub fn from_secs(secs: u64) -> (d: Duration)
        ensures
            d.secs_view() == secs,
            d.nanos_view() == 0,
    {
        Duration { secs, nanos: 0 }
    }

    /// A duration of `secs` seconds and `nanos` nanoseconds.
    pub fn new(secs: u64, nanos: u32) -> (d: Duration)
        requires
            nanos < 1_000_000_000,
        ensures
            d.secs_view() == secs,
            d.nanos_view() == nanos,
    {
        Duration { secs, nanos }
    }

    /// The whole seconds of this duration.
    pub fn as_secs(&self) -> (s: u64)
        ensures
            s == self.secs_view(),
    {
        self.secs
    }

    /// The sub-second part, in nanoseconds.
    pub fn subsec_nanos(&self) -> (n: u32)
        ensures
            n == self.nanos_view(),
    {
        self.nanos
    }

    /// Whether this duration is zero.
    pub fn is_zero(&self) -> (z: bool)
        ensures
            z == (self.secs_view() == 0 && self.nanos_view() == 0),
    {
        self.secs == 0 && self.nanos == 0
    }
}

} // verus!
