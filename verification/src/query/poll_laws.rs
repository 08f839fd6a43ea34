//! What holds of the queries that polls hand out.

use vstd::prelude::*;

use crate::kbucket::key::{Key, KeyBytes};
use crate::peer::PeerId;
use crate::query::laws::polled_query_is_stamped;
use crate::query::map::is_order_of;
use crate::query::peers::closest_laws::{are_keyed, starts_sound};
use crate::query::peers::PeersIterState;
use crate::query::pool::{
    closest_source, fixed_source, polled, PollOutcome, PoolView, QueryConfig, Step,
};
use crate::query::progress::{numbered, subject, takes_out};
use crate::query::source::contact_is_awaited;
use crate::query::{QueryId, QueryView};
use crate::time::{span_between, Instant};

verus! {

/// Whether both iterators of a query are in order, with keys that `key_of` gives for
/// their peers.
pub open spec fn is_sound_query<TInner>(
    query: QueryView<TInner>,
    key_of: spec_fn(PeerId) -> KeyBytes,
) -> bool {
    query.weighted.is_sound(key_of) && query.swamp.is_sound(key_of)
}

/// The iterators of a new query are in order, if it is given keys that `key_of` gives
/// for their peers.
pub proof fn new_sources_are_sound(
    target: KeyBytes,
    keys: Seq<Key<PeerId>>,
    config: QueryConfig,
    key_of: spec_fn(PeerId) -> KeyBytes,
)
    requires
        are_keyed(keys, key_of),
    ensures
        closest_source(target, keys, config).is_sound(key_of),
        fixed_source(keys, config).is_sound(key_of),
{
    starts_sound(target, keys, key_of);
}

/// A query waits for a result of the peer that it asks to contact.
pub proof fn query_waits_for_contact<TInner>(
    query: QueryView<TInner>,
    now: Instant,
    key_of: spec_fn(PeerId) -> KeyBytes,
)
    requires
        is_sound_query(query, key_of),
    ensures
        query.next(now).1 matches PeersIterState::Waiting(Some(peer)) ==> query.next(
            now,
        ).0.is_waiting(peer),
{
    contact_is_awaited(query.weighted, now, key_of);
    contact_is_awaited(query.swamp, now, key_of);
}

/// Whether both queries counted the same requests and results.
pub open spec fn same_counters<TInner>(a: QueryView<TInner>, b: QueryView<TInner>) -> bool {
    &&& a.stats.requests == b.stats.requests
    &&& a.stats.success == b.stats.success
    &&& a.stats.failure == b.stats.failure
}

/// When a poll hands out a query and a peer, the query waits for a result of that
/// peer and has counted one request more; all queries stay in the pool, and no other
/// query counted anything.
pub proof fn handed_out_query_waits<TInner>(
    pool: PoolView<TInner>,
    order: Seq<usize>,
    now: Instant,
    key_of: spec_fn(PeerId) -> KeyBytes,
)
    requires
        pool.can_poll(),
        numbered(pool),
        order.no_duplicates(),
        forall|i: int|
            0 <= i < order.len() ==> pool.queries.contains_key(#[trigger] order[i])
                && is_sound_query(pool.queries[order[i]], key_of),
    ensures
        pool.poll(order, now).1 matches PollOutcome::Contact(id, peer) ==> ({
            let after = pool.poll(order, now).0;
            let before = pool.queries[id.0];
            let query = after.queries[id.0];
            &&& after.queries.dom() == pool.queries.dom()
            &&& pool.queries.contains_key(id.0)
            &&& query.id == id
            &&& query.is_waiting(peer)
            &&& query.stats.requests == before.stats.requests + 1
            &&& query.stats.success == before.stats.success
            &&& query.stats.failure == before.stats.failure
            &&& forall|k: usize| #[trigger]
                pool.queries.contains_key(k) && k != id.0 ==> same_counters(
                    after.queries[k],
                    pool.queries[k],
                )
        }),
    decreases order.len(),
{
    if order.len() > 0 {
        let first = order[0];
        let query = pool.queries[first];
        let (polled_query, step) = polled(query, now, pool.config.timeout);
        query_waits_for_contact(query.asked(now), now, key_of);
        polled_query_is_stamped(query, now, pool.config.timeout);
        match step {
            Step::Contact(peer) => {
                assert(pool.poll(order, now).0.queries.dom() =~= pool.queries.dom());
            },
            Step::Pass => {
                let next = pool.with_query(first, polled_query);
                let rest = order.skip(1);
                assert forall|i: int| 0 <= i < rest.len() implies next.queries.contains_key(
                    #[trigger] rest[i],
                ) && is_sound_query(next.queries[rest[i]], key_of) by {
                    assert(rest[i] == order[i + 1]);
                }
                assert(same_counters(polled_query, query));
                handed_out_query_waits(next, rest, now, key_of);
                assert(next.queries.dom() =~= pool.queries.dom());
                if let PollOutcome::Contact(id, peer) = pool.poll(order, now).1 {
                    let after = pool.poll(order, now).0;
                    assert(next.queries.contains_key(id.0));
                    assert forall|k: usize| #[trigger]
                        pool.queries.contains_key(k) && k != id.0 implies same_counters(
                        after.queries[k],
                        pool.queries[k],
                    ) by {
                        assert(next.queries.contains_key(k));
                    }
                }
            },
            _ => {},
        }
    }
}

/// A poll sets the start of a query when it hands it out with its first peer, and
/// leaves every start that is set as it is.
pub proof fn poll_keeps_start<TInner>(
    pool: PoolView<TInner>,
    order: Seq<usize>,
    now: Instant,
    k: usize,
)
    requires
        numbered(pool),
        order.no_duplicates(),
        forall|i: int| 0 <= i < order.len() ==> pool.queries.contains_key(#[trigger] order[i]),
        pool.queries.contains_key(k),
    ensures
        ({
            let (after, outcome) = pool.poll(order, now);
            let before = pool.queries[k].stats.start;
            &&& after.queries.contains_key(k) ==> after.queries[k].stats.start == (if before is None
                && outcome is Contact && subject(outcome) == Some(k) {
                Some(now)
            } else {
                before
            })
            &&& match outcome {
                PollOutcome::Finished(gone) => gone.id == QueryId(k) ==> gone.stats.start == before
                    && gone.stats.end == Some(now),
                PollOutcome::Timeout(gone) => gone.id == QueryId(k) ==> gone.stats.start == before
                    && gone.stats.end == Some(now),
                _ => true,
            }
        }),
    decreases order.len(),
{
    if order.len() > 0 {
        let first = order[0];
        let (after, step) = polled(pool.queries[first], now, pool.config.timeout);
        polled_query_is_stamped(pool.queries[first], now, pool.config.timeout);
        if step is Pass {
            let rest = order.skip(1);
            poll_keeps_start(pool.with_query(first, after), rest, now, k);
            if first == k {
                not_about_others(pool.with_query(first, after), rest, now, k);
            }
        }
    }
}

proof fn not_about_others<TInner>(
    pool: PoolView<TInner>,
    order: Seq<usize>,
    now: Instant,
    k: usize,
)
    requires
        numbered(pool),
        order.no_duplicates(),
        forall|i: int| 0 <= i < order.len() ==> pool.queries.contains_key(#[trigger] order[i]),
        !order.contains(k),
    ensures
        subject(pool.poll(order, now).1) != Some(k),
    decreases order.len(),
{
    if order.len() > 0 {
        let first = order[0];
        assert(order.contains(first));
        let (after, step) = polled(pool.queries[first], now, pool.config.timeout);
        polled_query_is_stamped(pool.queries[first], now, pool.config.timeout);
        if step is Pass {
            let rest = order.skip(1);
            assert forall|i: int| 0 <= i < rest.len() implies rest[i] != k by {
                assert(order.contains(order[i + 1]));
            }
            not_about_others(pool.with_query(first, after), rest, now, k);
        }
    }
}

/// Whether the query under a number is in both pools, with the same start.
pub open spec fn keeps_start<TInner>(a: PoolView<TInner>, b: PoolView<TInner>, k: usize) -> bool {
    &&& a.queries.contains_key(k)
    &&& b.queries.contains_key(k)
    &&& b.queries[k].stats.start == a.queries[k].stats.start
}

proof fn start_is_carried<TInner>(
    pools: Seq<PoolView<TInner>>,
    orders: Seq<Seq<usize>>,
    nows: Seq<Instant>,
    k: usize,
    n: int,
)
    requires
        0 < n < pools.len(),
        orders.len() == pools.len(),
        nows.len() == pools.len(),
        forall|i: int|
            0 <= i < pools.len() ==> numbered(#[trigger] pools[i]) && is_order_of(
                orders[i],
                pools[i].queries,
            ),
        forall|i: int|
            0 <= i < pools.len() - 1 ==> keeps_start(
                (#[trigger] pools[i]).poll(orders[i], nows[i]).0,
                pools[i + 1],
                k,
            ),
        pools[0].queries.contains_key(k),
        pools[0].queries[k].stats.start is None,
        pools[0].poll(orders[0], nows[0]).1 is Contact,
        subject(pools[0].poll(orders[0], nows[0]).1) == Some(k),
    ensures
        pools[n].queries.contains_key(k),
        pools[n].queries[k].stats.start == Some(nows[0]),
    decreases n,
{
    let i = n - 1;
    assert(keeps_start(pools[i].poll(orders[i], nows[i]).0, pools[i + 1], k));
    if i > 0 {
        start_is_carried(pools, orders, nows, k, i);
    }
    assert(numbered(pools[i]));
    assert forall|j: int| 0 <= j < orders[i].len() implies pools[i].queries.contains_key(
        #[trigger] orders[i][j],
    ) by {
        assert(orders[i].contains(orders[i][j]));
    }
    poll_keeps_start(pools[i], orders[i], nows[i], k);
}

/// The duration of a query runs from the poll that handed it out with its first peer
/// to the poll that takes it out of the pool, whatever polls there are in between.
/// What happens to the queries between the polls may be anything that leaves their
/// starts as they are.
pub proof fn duration_runs_from_first_contact<TInner>(
    pools: Seq<PoolView<TInner>>,
    orders: Seq<Seq<usize>>,
    nows: Seq<Instant>,
    k: usize,
    then: Instant,
)
    requires
        2 <= pools.len(),
        orders.len() == pools.len(),
        nows.len() == pools.len(),
        forall|i: int|
            0 <= i < pools.len() ==> numbered(#[trigger] pools[i]) && is_order_of(
                orders[i],
                pools[i].queries,
            ),
        forall|i: int|
            0 <= i < pools.len() - 1 ==> keeps_start(
                (#[trigger] pools[i]).poll(orders[i], nows[i]).0,
                pools[i + 1],
                k,
            ),
        pools[0].queries.contains_key(k),
        pools[0].queries[k].stats.start is None,
        pools[0].poll(orders[0], nows[0]).1 is Contact,
        subject(pools[0].poll(orders[0], nows[0]).1) == Some(k),
        takes_out(pools.last(), orders.last(), nows.last(), k),
    ensures
        match pools.last().poll(orders.last(), nows.last()).1 {
            PollOutcome::Finished(gone) => gone.stats.duration_until(then) == Some(
                span_between(nows[0], nows.last()),
            ),
            PollOutcome::Timeout(gone) => gone.stats.duration_until(then) == Some(
                span_between(nows[0], nows.last()),
            ),
            _ => false,
        },
{
    let n = pools.len() - 1;
    start_is_carried(pools, orders, nows, k, n);
    assert(numbered(pools[n]));
    assert forall|j: int| 0 <= j < orders[n].len() implies pools[n].queries.contains_key(
        #[trigger] orders[n][j],
    ) by {
        assert(orders[n].contains(orders[n][j]));
    }
    poll_keeps_start(pools[n], orders[n], nows[n], k);
}

} // verus!
