//! Points in time and spans between them, as plain numbers of nanoseconds.

use vstd::prelude::*;

verus! {

/// A span of time.
#[derive(Clone, Copy, Debug, PartialEq, Eq, Structural)]
pub struct Duration {
    /// The length of the span in nanoseconds.
    pub nanos: u128,
}

impl Duration {
    /// A span of whole seconds.
    pub fn from_secs(secs: u64) -> (d: Duration)
        ensures
            d.nanos == secs * 1_000_000_000,
    {
        assert(secs * 1_000_000_000 <= 0xffff_ffff_ffff_ffff * 1_000_000_000) by (nonlinear_arith)
            requires
                secs <= 0xffff_ffff_ffff_ffff,
        ;
        Duration { nanos: secs as u128 * 1_000_000_000 }
    }
}

/// A point in time, counted from the start of the [`Clock`] that it was read
/// from.
#[derive(Clone, Copy, Debug, PartialEq, Eq, Structural)]
pub struct Instant {
    /// The nanoseconds that passed since the clock was started.
    pub nanos: u128,
}

/// The span from `earlier` to `later`; empty if `later` does not come later.
pub open spec fn span_between(earlier: Instant, later: Instant) -> Duration {
    Duration {
        nanos: if later.nanos >= earlier.nanos {
            (later.nanos - earlier.nanos) as u128
        } else {
            0
        },
    }
}

/// The point in time that lies `span` after `from`, or the last one that can
/// be represented.
pub open spec fn instant_after(from: Instant, span: Duration) -> Instant {
    Instant {
        nanos: if from.nanos + span.nanos <= u128::MAX {
            (from.nanos + span.nanos) as u128
        } else {
            u128::MAX
        },
    }
}

/// The earlier of two points in time.
pub open spec fn earlier_of(a: Instant, b: Instant) -> Instant {
    if b.nanos < a.nanos {
        b
    } else {
        a
    }
}

/// The later of two points in time.
pub open spec fn later_of(a: Instant, b: Instant) -> Instant {
    if a.nanos < b.nanos {
        b
    } else {
        a
    }
}

impl Instant {
    /// The span that passed since `earlier`; empty if `earlier` comes later.
    pub fn duration_since(&self, earlier: Instant) -> (d: Duration)
        ensures
            d == span_between(earlier, *self),
    {
        Duration { nanos: self.nanos.saturating_sub(earlier.nanos) }
    }

    /// The point in time that lies `span` later.
    pub fn after(&self, span: Duration) -> (t: Instant)
        ensures
            t == instant_after(*self, span),
    {
        Instant { nanos: self.nanos.saturating_add(span.nanos) }
    }

    /// The earlier of two points in time.
    pub fn earlier(&self, other: Instant) -> (t: Instant)
        ensures
            t == earlier_of(*self, other),
    {
        if other.nanos < self.nanos {
            other
        } else {
            *self
        }
    }

    /// The later of two points in time.
    pub fn later(&self, other: Instant) -> (t: Instant)
        ensures
            t == later_of(*self, other),
    {
        if self.nanos < other.nanos {
            other
        } else {
            *self
        }
    }
}

/// A reading of the system's monotonic clock, which `wasm_timer` re-exports as
/// its own `Instant`.
#[verifier::external_type_specification]
#[verifier::external_body]
pub struct ExSystemInstant(std::time::Instant);

/// Reads the system's monotonic clock by `wasm_timer::Instant::now`.
///
/// Nothing is claimed of the reading: it is whatever the clock shows.
#[verifier::external_body]
fn system_now() -> (t: wasm_timer::Instant) {
    wasm_timer::Instant::now()
}

/// The nanoseconds from one reading of the system's clock to another.
pub uninterp spec fn nanos_between(
    earlier: std::time::Instant,
    later: std::time::Instant,
) -> u128;

/// The nanoseconds from one clock reading to another, by
/// `wasm_timer::Instant::saturating_duration_since`, which is zero if `later`
/// does not come later.
///
/// The number is claimed to be decided by the two readings, in this order. What
/// it is on given readings is left unsaid: they are opaque.
#[verifier::external_body]
fn system_nanos_between(earlier: &wasm_timer::Instant, later: &wasm_timer::Instant) -> (nanos: u128)
    ensures
        nanos == nanos_between(*earlier, *later),
{
    later.saturating_duration_since(*earlier).as_nanos()
}

/// A running clock. The points in time that it gives count from its start.
pub struct Clock {
    origin: wasm_timer::Instant,
}

impl Clock {
    /// The reading of the system's clock at the start.
    pub closed spec fn origin(&self) -> std::time::Instant {
        self.origin
    }

    /// A clock that was started at the given reading of the system's clock.
    pub fn started_at(reading: wasm_timer::Instant) -> (c: Clock)
        ensures
            c.origin() == reading,
    {
        Clock { origin: reading }
    }

    /// Starts a clock, at the present reading of the system's clock, whatever
    /// that is.
    pub fn start() -> (c: Clock) {
        Clock::started_at(system_now())
    }

    /// The point in time of the given reading of the system's clock.
    pub fn at(&self, reading: &wasm_timer::Instant) -> (t: Instant)
        ensures
            t.nanos == nanos_between(self.origin(), *reading),
    {
        Instant { nanos: system_nanos_between(&self.origin, reading) }
    }

    /// The present point in time: that of a reading of the system's clock, which
    /// alone decides which reading it is.
    pub fn now(&self) -> (t: Instant)
        ensures
            exists|reading: std::time::Instant|
                t.nanos == #[trigger] nanos_between(self.origin(), reading),
    {
        let reading = system_now();
        self.at(&reading)
    }
}

/// What lies between two points in time leads from the earlier to the later one, and
/// there is nothing between them if none comes later.
pub proof fn span_leads_on(earlier: Instant, later: Instant)
    ensures
        later.nanos >= earlier.nanos ==> earlier.nanos + span_between(earlier, later).nanos
            == later.nanos,
        later.nanos >= earlier.nanos ==> instant_after(earlier, span_between(earlier, later))
            == later,
        later.nanos <= earlier.nanos ==> span_between(earlier, later).nanos == 0,
{
}

/// The point in time after a span is further on by that span, or the last one.
pub proof fn instants_move_on(from: Instant, span: Duration)
    ensures
        from.nanos + span.nanos <= u128::MAX ==> instant_after(from, span).nanos == from.nanos
            + span.nanos,
        from.nanos + span.nanos > u128::MAX ==> instant_after(from, span).nanos == u128::MAX,
{
}

/// The earlier and the later one of two points in time are these two points.
pub proof fn earlier_and_later(a: Instant, b: Instant)
    ensures
        earlier_of(a, b).nanos <= a.nanos <= later_of(a, b).nanos,
        earlier_of(a, b).nanos <= b.nanos <= later_of(a, b).nanos,
        earlier_of(a, b) == a && later_of(a, b) == b || earlier_of(a, b) == b && later_of(a, b)
            == a,
{
}

} // verus!
