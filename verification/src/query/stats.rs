//! Execution statistics of queries.

use vstd::prelude::*;

use crate::time::{earlier_of, later_of, nanos_between, span_between, Clock, Duration, Instant};

verus! {

/// Execution statistics of a query.
#[derive(Clone, Debug, PartialEq, Eq)]
pub struct QueryStats {
    /// The number of requests that were initiated.
    pub requests: u32,
    /// The number of requests that succeeded.
    pub success: u32,
    /// The number of requests that failed.
    pub failure: u32,
    /// When the query yielded the first peer to contact.
    pub start: Option<Instant>,
    /// When the query left its pool.
    pub end: Option<Instant>,
}

/// The statistics of a query that did not start.
pub open spec fn no_stats() -> QueryStats {
    QueryStats { requests: 0, success: 0, failure: 0, start: None, end: None }
}

/// The earlier of two points in time, of which either may be missing.
pub open spec fn earlier_start(a: Option<Instant>, b: Option<Instant>) -> Option<Instant> {
    match (a, b) {
        (Some(a), Some(b)) => Some(earlier_of(a, b)),
        (Some(a), None) => Some(a),
        (None, b) => b,
    }
}

/// The later of two points in time, of which either may be missing.
pub open spec fn later_end(a: Option<Instant>, b: Option<Instant>) -> Option<Instant> {
    match (a, b) {
        (Some(a), Some(b)) => Some(later_of(a, b)),
        (Some(a), None) => Some(a),
        (None, b) => b,
    }
}

impl QueryStats {
    /// Whether no more requests succeeded or failed than were initiated.
    pub open spec fn wf(self) -> bool {
        self.success + self.failure <= self.requests
    }

    /// Whether the counters of both statistics can be added up.
    pub open spec fn can_merge(self, other: QueryStats) -> bool {
        &&& self.requests + other.requests <= u32::MAX
        &&& self.success + other.success <= u32::MAX
        &&& self.failure + other.failure <= u32::MAX
    }

    /// The statistics of both queries together.
    pub open spec fn merged(self, other: QueryStats) -> QueryStats {
        QueryStats {
            requests: (self.requests + other.requests) as u32,
            success: (self.success + other.success) as u32,
            failure: (self.failure + other.failure) as u32,
            start: earlier_start(self.start, other.start),
            end: later_end(self.end, other.end),
        }
    }

    /// How long the query took until its end or, if it has none, until `now`.
    pub open spec fn duration_until(self, now: Instant) -> Option<Duration> {
        match self.start {
            Some(start) => Some(
                span_between(
                    start,
                    match self.end {
                        Some(end) => end,
                        None => now,
                    },
                ),
            ),
            None => None,
        }
    }

    /// The statistics of a query that did not start.
    pub fn empty() -> (r: QueryStats)
        ensures
            r == no_stats(),
    {
        QueryStats { requests: 0, success: 0, failure: 0, start: None, end: None }
    }

    /// Gets the total number of requests initiated by the query.
    pub fn num_requests(&self) -> (n: u32)
        ensures
            n == self.requests,
    {
        self.requests
    }

    /// Gets the number of successful requests.
    pub fn num_successes(&self) -> (n: u32)
        ensures
            n == self.success,
    {
        self.success
    }

    /// Gets the number of failed requests.
    pub fn num_failures(&self) -> (n: u32)
        ensures
            n == self.failure,
    {
        self.failure
    }

    /// Gets the number of pending requests.
    ///
    /// A query can finish while still having pending requests, if the
    /// termination conditions are already met.
    pub fn num_pending(&self) -> (n: u32)
        requires
            self.wf(),
        ensures
            n == self.requests - (self.success + self.failure),
    {
        self.requests - (self.success + self.failure)
    }

    /// Gets the duration of the query.
    ///
    /// If the query has not yet finished, the duration is measured from the start
    /// of the query to `now`.
    ///
    /// If the query did not yet start (i.e. yield the first peer to contact),
    /// `None` is returned.
    pub fn duration_at(&self, now: Instant) -> (r: Option<Duration>)
        ensures
            r == self.duration_until(now),
    {
        match self.start {
            Some(start) => match self.end {
                Some(end) => Some(end.duration_since(start)),
                None => Some(now.duration_since(start)),
            },
            None => None,
        }
    }

    /// Gets the duration of the query.
    ///
    /// If the query has not yet finished, the duration is measured from the start
    /// of the query to the present instant, which a reading of the system's clock
    /// decides.
    ///
    /// If the query did not yet start (i.e. yield the first peer to contact),
    /// `None` is returned.
    pub fn duration(&self, clock: &Clock) -> (r: Option<Duration>)
        ensures
            exists|reading: std::time::Instant|
                r == self.duration_until(
                    Instant { nanos: #[trigger] nanos_between(clock.origin(), reading) },
                ),
            self.start is None ==> r is None,
            self.start matches Some(start) ==> self.end matches Some(end) ==> r == Some(
                span_between(start, end),
            ),
    {
        let now = clock.now();
        self.duration_at(now)
    }

    /// Merges these stats with the given stats of another query, e.g. to
    /// accumulate statistics from a multi-phase query.
    ///
    /// Counters are merged cumulatively while the instants for start and end of
    /// the queries are taken as the minimum and maximum, respectively.
    pub fn merge(self, other: QueryStats) -> (r: QueryStats)
        requires
            self.can_merge(other),
        ensures
            r == self.merged(other),
    {
        QueryStats {
            requests: self.requests + other.requests,
            success: self.success + other.success,
            failure: self.failure + other.failure,
            start: match (self.start, other.start) {
                (Some(a), Some(b)) => Some(a.earlier(b)),
                (Some(a), None) => Some(a),
                (None, b) => b,
            },
            end: match (self.end, other.end) {
                (Some(a), Some(b)) => Some(a.later(b)),
                (Some(a), None) => Some(a),
                (None, b) => b,
            },
        }
    }
}

/// It does not matter which of two statistics is merged with the other.
pub proof fn merge_commutes(a: QueryStats, b: QueryStats)
    requires
        a.can_merge(b),
    ensures
        b.can_merge(a),
        a.merged(b) == b.merged(a),
{
}

/// It does not matter in which order three statistics are merged.
pub proof fn merge_associates(a: QueryStats, b: QueryStats, c: QueryStats)
    requires
        a.can_merge(b),
        a.merged(b).can_merge(c),
    ensures
        b.can_merge(c),
        a.can_merge(b.merged(c)),
        a.merged(b).merged(c) == a.merged(b.merged(c)),
{
}

/// Merging with the statistics of a query that did not start changes nothing.
pub proof fn merge_with_empty(a: QueryStats)
    ensures
        a.can_merge(no_stats()),
        a.merged(no_stats()) == a,
        no_stats().merged(a) == a,
{
}

/// The pending requests of merged statistics are those of both together, and a
/// merged query covers both.
pub proof fn merge_adds_up(a: QueryStats, b: QueryStats)
    requires
        a.wf(),
        b.wf(),
        a.can_merge(b),
    ensures
        a.merged(b).wf(),
        a.merged(b).requests - (a.merged(b).success + a.merged(b).failure) == (a.requests - (
        a.success + a.failure)) + (b.requests - (b.success + b.failure)),
        a.start matches Some(start) ==> a.merged(b).start matches Some(first) && first.nanos
            <= start.nanos,
        a.end matches Some(end) ==> a.merged(b).end matches Some(last) && end.nanos <= last.nanos,
{
}

/// Each counter of merged statistics is the sum of both; the start is the earlier one of
/// those that there are, and the end the later one.
pub proof fn merge_sums_counters(a: QueryStats, b: QueryStats)
    requires
        a.requests + b.requests <= u32::MAX,
        a.success + b.success <= u32::MAX,
        a.failure + b.failure <= u32::MAX,
    ensures
        ({
            let m = a.merged(b);
            &&& a.can_merge(b)
            &&& m.requests == a.requests + b.requests
            &&& m.success == a.success + b.success
            &&& m.failure == a.failure + b.failure
            &&& m.start == a.start || m.start == b.start
            &&& m.end == a.end || m.end == b.end
            &&& m.start is None <==> a.start is None && b.start is None
            &&& m.end is None <==> a.end is None && b.end is None
            &&& a.start matches Some(t) ==> m.start->0.nanos <= t.nanos
            &&& b.start matches Some(t) ==> m.start->0.nanos <= t.nanos
            &&& a.end matches Some(t) ==> m.end->0.nanos >= t.nanos
            &&& b.end matches Some(t) ==> m.end->0.nanos >= t.nanos
        }),
{
}

/// A query has a duration if and only if it has a start: the span from there to its end or,
/// if it has none, to the present.
pub proof fn duration_is_span(stats: QueryStats, now: Instant)
    ensures
        stats.duration_until(now) is None <==> stats.start is None,
        stats.start matches Some(start) ==> {
            let until = if let Some(end) = stats.end {
                end
            } else {
                now
            };
            &&& until.nanos >= start.nanos ==> stats.duration_until(now)->0.nanos == until.nanos
                - start.nanos
            &&& until.nanos < start.nanos ==> stats.duration_until(now)->0.nanos == 0
        },
{
}

/// The statistics of a query that did not start hold nothing.
pub proof fn no_stats_hold_nothing()
    ensures
        no_stats().requests == 0,
        no_stats().success == 0,
        no_stats().failure == 0,
        no_stats().start is None,
        no_stats().end is None,
{
}

} // verus!
