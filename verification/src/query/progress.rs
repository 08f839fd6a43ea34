//! Polls make progress: a pool that is polled again and again comes to the end
//! of its work, and reports each finished query on the way.

use vstd::prelude::*;

use crate::query::laws::polled_query_is_stamped;
use crate::query::map::is_order_of;
use crate::query::pool::{polled, PollOutcome, PoolView};
use crate::query::source::contact_takes;
use crate::query::{QueryId, QueryView};
use crate::time::{span_between, Duration, Instant};

verus! {

/// How many polls can be about the query under a number, at most: one for each
/// peer that is left to contact, and one for the end of the query.
pub open spec fn work_of<TInner>(pool: PoolView<TInner>, k: usize) -> nat {
    if pool.queries.contains_key(k) {
        1 + pool.queries[k].weighted.left() + pool.queries[k].swamp.left()
    } else {
        0
    }
}

/// The work of the queries under the given numbers.
pub open spec fn total_work<TInner>(pool: PoolView<TInner>, keys: Seq<usize>) -> nat
    decreases keys.len(),
{
    if keys.len() == 0 {
        0
    } else {
        total_work(pool, keys.drop_last()) + work_of(pool, keys.last())
    }
}

/// Whether each query stands under its number.
pub open spec fn numbered<TInner>(pool: PoolView<TInner>) -> bool {
    forall|k: usize| #[trigger]
        pool.queries.contains_key(k) ==> pool.queries[k].id == QueryId(k)
}

/// The number of the query that an outcome is about.
pub open spec fn subject<TInner>(outcome: PollOutcome<TInner>) -> Option<usize> {
    match outcome {
        PollOutcome::Contact(id, _) => Some(id.0),
        PollOutcome::Finished(query) => Some(query.id.0),
        PollOutcome::Timeout(query) => Some(query.id.0),
        _ => None,
    }
}

/// Whether a poll reports that the query under a number has finished.
pub open spec fn reports_finished<TInner>(
    pool: PoolView<TInner>,
    order: Seq<usize>,
    now: Instant,
    k: usize,
) -> bool {
    pool.poll(order, now).1 matches PollOutcome::Finished(query) && query.id == QueryId(k)
}

proof fn polled_takes<TInner>(query: QueryView<TInner>, now: Instant, timeout: Duration)
    ensures
        ({
            let (after, step) = polled(query, now, timeout);
            after.weighted.left() + after.swamp.left() + if step is Contact {
                1nat
            } else {
                0nat
            } <= query.weighted.left() + query.swamp.left()
        }),
{
    contact_takes(query.weighted, now);
    contact_takes(query.swamp, now);
}

/// No poll adds to the work of a query, and what a poll is about is less work
/// after it.
pub proof fn poll_takes_work<TInner>(
    pool: PoolView<TInner>,
    order: Seq<usize>,
    now: Instant,
    k: usize,
)
    requires
        numbered(pool),
        order.no_duplicates(),
        forall|i: int| 0 <= i < order.len() ==> pool.queries.contains_key(#[trigger] order[i]),
    ensures
        ({
            let (after, outcome) = pool.poll(order, now);
            &&& numbered(after)
            &&& work_of(after, k) <= work_of(pool, k)
            &&& subject(outcome) == Some(k) ==> work_of(after, k) < work_of(pool, k)
        }),
    decreases order.len(),
{
    if order.len() > 0 {
        let first = order[0];
        let query = pool.queries[first];
        let (after, step) = polled(query, now, pool.config.timeout);
        polled_takes(query, now, pool.config.timeout);
        polled_query_is_stamped(query, now, pool.config.timeout);
        if step is Pass {
            poll_takes_work(pool.with_query(first, after), order.skip(1), now, k);
        }
    }
}

/// A pool that holds a finished query is neither idle nor just waiting when it
/// is polled.
pub proof fn finished_query_is_not_passed_over<TInner>(
    pool: PoolView<TInner>,
    order: Seq<usize>,
    now: Instant,
    k: usize,
)
    requires
        order.no_duplicates(),
        order.contains(k),
        pool.queries[k].is_finished(),
    ensures
        subject(pool.poll(order, now).1) is Some,
        reports_finished(pool, order, now, pool.queries[k].id.0) || {
            &&& pool.poll(order, now).0.queries.contains_key(k) == pool.queries.contains_key(k)
            &&& pool.poll(order, now).0.queries[k] == pool.queries[k]
        },
    decreases order.len(),
{
    let first = order[0];
    let (after, step) = polled(pool.queries[first], now, pool.config.timeout);
    if first != k && step is Pass {
        let rest = order.skip(1);
        let i = choose|i: int| 0 <= i < order.len() && order[i] == k;
        assert(rest[i - 1] == k);
        finished_query_is_not_passed_over(pool.with_query(first, after), rest, now, k);
    }
}

proof fn work_takes_sum<TInner>(before: PoolView<TInner>, after: PoolView<TInner>, keys: Seq<usize>)
    requires
        forall|k: usize| #[trigger] work_of(after, k) <= work_of(before, k),
    ensures
        total_work(after, keys) <= total_work(before, keys),
        forall|i: int|
            0 <= i < keys.len() && work_of(after, keys[i]) < work_of(before, #[trigger] keys[i])
                ==> total_work(after, keys) < total_work(before, keys),
    decreases keys.len(),
{
    if keys.len() > 0 {
        work_takes_sum(before, after, keys.drop_last());
        assert forall|i: int|
            0 <= i < keys.len() && work_of(after, keys[i]) < work_of(
                before,
                #[trigger] keys[i],
            ) implies total_work(after, keys) < total_work(before, keys) by {
            if i < keys.len() - 1 {
                assert(keys.drop_last()[i] == keys[i]);
            }
            assert(work_of(after, keys.last()) <= work_of(before, keys.last()));
        }
        assert(work_of(after, keys.last()) <= work_of(before, keys.last()));
    }
}

proof fn order_covers<TInner>(pool: PoolView<TInner>, order: Seq<usize>)
    requires
        is_order_of(order, pool.queries),
    ensures
        forall|i: int| 0 <= i < order.len() ==> pool.queries.contains_key(#[trigger] order[i]),
{
    assert forall|i: int| 0 <= i < order.len() implies pool.queries.contains_key(
        #[trigger] order[i],
    ) by {
        assert(order.contains(order[i]));
    }
}

/// A poll that is about a query leaves less work, and brings no new queries.
pub proof fn progress_is_made<TInner>(
    pool: PoolView<TInner>,
    order: Seq<usize>,
    now: Instant,
    keys: Seq<usize>,
)
    requires
        numbered(pool),
        is_order_of(order, pool.queries),
        forall|j: usize| pool.queries.contains_key(j) ==> #[trigger] keys.contains(j),
        subject(pool.poll(order, now).1) is Some,
    ensures
        numbered(pool.poll(order, now).0),
        total_work(pool.poll(order, now).0, keys) < total_work(pool, keys),
        forall|j: usize|
            pool.poll(order, now).0.queries.contains_key(j) ==> #[trigger] keys.contains(j),
{
    let (after, outcome) = pool.poll(order, now);
    let about = subject(outcome)->0;
    order_covers(pool, order);
    poll_takes_work(pool, order, now, about);
    assert forall|j: usize| #[trigger] work_of(after, j) <= work_of(pool, j) by {
        poll_takes_work(pool, order, now, j);
    }
    assert(pool.queries.contains_key(about));
    assert(keys.contains(about));
    let i = choose|i: int| 0 <= i < keys.len() && keys[i] == about;
    work_takes_sum(pool, after, keys);
    assert(keys[i] == about);
    assert forall|j: usize| after.queries.contains_key(j) implies #[trigger] keys.contains(j) by {
        assert(work_of(after, j) <= work_of(pool, j));
    }
}

/// A finished query is eventually reported: of polls in a row, as many as the
/// pool has work for, one reports it as finished.
pub proof fn finished_query_is_reported<TInner>(
    pools: Seq<PoolView<TInner>>,
    orders: Seq<Seq<usize>>,
    nows: Seq<Instant>,
    keys: Seq<usize>,
    k: usize,
)
    requires
        pools.len() == orders.len() + 1,
        nows.len() == orders.len(),
        numbered(pools[0]),
        forall|i: int|
            0 <= i < orders.len() ==> is_order_of(#[trigger] orders[i], pools[i].queries)
                && pools[i + 1] == pools[i].poll(orders[i], nows[i]).0,
        forall|j: usize| pools[0].queries.contains_key(j) ==> #[trigger] keys.contains(j),
        pools[0].queries.contains_key(k),
        pools[0].queries[k].is_finished(),
        orders.len() >= total_work(pools[0], keys),
    ensures
        exists|i: int|
            0 <= i < orders.len() && reports_finished(
                #[trigger] pools[i],
                orders[i],
                nows[i],
                k,
            ),
    decreases orders.len(),
{
    let pool = pools[0];
    let at = choose|i: int| 0 <= i < keys.len() && keys[i] == k;
    assert(keys.contains(k));
    work_counts(pool, keys, at);
    let order = orders[0];
    let (after, outcome) = pool.poll(order, nows[0]);
    assert(is_order_of(orders[0], pools[0].queries));
    assert(pools[1] == after);
    assert(order.contains(k));
    order_covers(pool, order);
    finished_query_is_not_passed_over(pool, order, nows[0], k);
    if !reports_finished(pool, order, nows[0], k) {
        progress_is_made(pool, order, nows[0], keys);
        finished_query_is_reported(pools.skip(1), orders.skip(1), nows.skip(1), keys, k);
        let later = choose|i: int|
            0 <= i < orders.skip(1).len() && reports_finished(
                #[trigger] pools.skip(1)[i],
                orders.skip(1)[i],
                nows.skip(1)[i],
                k,
            );
        assert(reports_finished(pools[later + 1], orders[later + 1], nows[later + 1], k));
    }
}

/// Whether a poll reports that the query under a number has finished or timed
/// out, and so takes it out of the pool.
pub open spec fn takes_out<TInner>(
    pool: PoolView<TInner>,
    order: Seq<usize>,
    now: Instant,
    k: usize,
) -> bool {
    match pool.poll(order, now).1 {
        PollOutcome::Finished(query) => query.id == QueryId(k),
        PollOutcome::Timeout(query) => query.id == QueryId(k),
        _ => false,
    }
}

/// Whether a query took as long as it may since its first poll.
pub open spec fn is_overdue<TInner>(
    query: QueryView<TInner>,
    now: Instant,
    timeout: Duration,
) -> bool {
    query.first_poll matches Some(first) && span_between(first, now).nanos >= timeout.nanos
}

/// A pool that holds an overdue query is neither idle nor just waiting when it
/// is polled, and the query stays overdue as long as it stays.
pub proof fn overdue_query_is_not_passed_over<TInner>(
    pool: PoolView<TInner>,
    order: Seq<usize>,
    now: Instant,
    k: usize,
)
    requires
        order.no_duplicates(),
        order.contains(k),
        pool.queries.contains_key(k),
        is_overdue(pool.queries[k], now, pool.config.timeout),
    ensures
        subject(pool.poll(order, now).1) is Some,
        pool.poll(order, now).0.config == pool.config,
        takes_out(pool, order, now, pool.queries[k].id.0) || {
            &&& pool.poll(order, now).0.queries.contains_key(k)
            &&& pool.poll(order, now).0.queries[k].first_poll == pool.queries[k].first_poll
        },
    decreases order.len(),
{
    let first = order[0];
    let (after, step) = polled(pool.queries[first], now, pool.config.timeout);
    polled_query_is_stamped(pool.queries[first], now, pool.config.timeout);
    if first != k && step is Pass {
        let rest = order.skip(1);
        let i = choose|i: int| 0 <= i < order.len() && order[i] == k;
        assert(rest[i - 1] == k);
        overdue_query_is_not_passed_over(pool.with_query(first, after), rest, now, k);
    }
}

/// An overdue query eventually leaves the pool: of polls in a row, as many as
/// the pool has work for, one takes it out.
pub proof fn overdue_query_leaves<TInner>(
    pools: Seq<PoolView<TInner>>,
    orders: Seq<Seq<usize>>,
    nows: Seq<Instant>,
    keys: Seq<usize>,
    k: usize,
    first: Instant,
)
    requires
        pools.len() == orders.len() + 1,
        nows.len() == orders.len(),
        numbered(pools[0]),
        forall|i: int|
            0 <= i < orders.len() ==> is_order_of(#[trigger] orders[i], pools[i].queries)
                && pools[i + 1] == pools[i].poll(orders[i], nows[i]).0,
        forall|j: usize| pools[0].queries.contains_key(j) ==> #[trigger] keys.contains(j),
        pools[0].queries.contains_key(k),
        pools[0].queries[k].first_poll == Some(first),
        forall|i: int|
            0 <= i < nows.len() ==> span_between(first, #[trigger] nows[i]).nanos
                >= pools[0].config.timeout.nanos,
        orders.len() >= total_work(pools[0], keys),
    ensures
        exists|i: int|
            0 <= i < orders.len() && takes_out(#[trigger] pools[i], orders[i], nows[i], k),
    decreases orders.len(),
{
    let pool = pools[0];
    assert(keys.contains(k));
    let at = choose|i: int| 0 <= i < keys.len() && keys[i] == k;
    work_counts(pool, keys, at);
    let order = orders[0];
    let (after, outcome) = pool.poll(order, nows[0]);
    assert(is_order_of(orders[0], pools[0].queries));
    assert(pools[1] == after);
    assert(order.contains(k));
    order_covers(pool, order);
    overdue_query_is_not_passed_over(pool, order, nows[0], k);
    if !takes_out(pool, order, nows[0], k) {
        progress_is_made(pool, order, nows[0], keys);
        overdue_query_leaves(pools.skip(1), orders.skip(1), nows.skip(1), keys, k, first);
        let later = choose|i: int|
            0 <= i < orders.skip(1).len() && takes_out(
                #[trigger] pools.skip(1)[i],
                orders.skip(1)[i],
                nows.skip(1)[i],
                k,
            );
        assert(takes_out(pools[later + 1], orders[later + 1], nows[later + 1], k));
    }
}

proof fn work_counts<TInner>(pool: PoolView<TInner>, keys: Seq<usize>, i: int)
    requires
        0 <= i < keys.len(),
    ensures
        total_work(pool, keys) >= work_of(pool, keys[i]),
    decreases keys.len(),
{
    if i < keys.len() - 1 {
        work_counts(pool, keys.drop_last(), i);
    }
}

} // verus!
