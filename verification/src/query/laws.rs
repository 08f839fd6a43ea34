//! What holds of every query and of every pool.

use vstd::prelude::*;

use crate::kbucket::key::Key;
use crate::peer::PeerId;
use crate::query::map::is_order_of;
use crate::query::peers::PeersIterState;
use crate::query::pool::{fixed_source, polled, PollOutcome, PoolView, QueryConfig};
use crate::query::source::{contact_opens, done_source_is_finished, result_has_answers};
use crate::query::{swamp_keys, weighted_keys, QueryId, QueryView, WeightedPeer};
use crate::time::{span_between, Duration, Instant};

verus! {

/// Each peer goes either to the weighted ones or to the swamp.
pub proof fn each_peer_has_one_place(peers: Seq<WeightedPeer>)
    ensures
        weighted_keys(peers).len() + swamp_keys(peers).len() == peers.len(),
        forall|i: int|
            0 <= i < peers.len() ==> if (#[trigger] peers[i]).weight == 0 {
                swamp_keys(peers).contains(peers[i].peer_id)
            } else {
                weighted_keys(peers).contains(peers[i].peer_id)
            },
    decreases peers.len(),
{
    if peers.len() > 0 {
        let init = peers.drop_last();
        let last = peers.last();
        each_peer_has_one_place(init);
        assert forall|i: int| 0 <= i < peers.len() implies if (#[trigger] peers[i]).weight == 0 {
            swamp_keys(peers).contains(peers[i].peer_id)
        } else {
            weighted_keys(peers).contains(peers[i].peer_id)
        } by {
            if i < init.len() {
                assert(init[i] == peers[i]);
                if peers[i].weight == 0 {
                    stays_in(swamp_keys(init), swamp_keys(peers), peers[i].peer_id);
                } else {
                    stays_in(weighted_keys(init), weighted_keys(peers), peers[i].peer_id);
                }
            } else if last.weight == 0 {
                assert(swamp_keys(peers).last() == last.peer_id);
            } else {
                assert(weighted_keys(peers).last() == last.peer_id);
            }
        }
    }
}

proof fn stays_in(a: Seq<Key<PeerId>>, b: Seq<Key<PeerId>>, key: Key<PeerId>)
    requires
        a.contains(key),
        b == a || b == a.push(b.last()),
    ensures
        b.contains(key),
{
    let i = choose|i: int| 0 <= i < a.len() && a[i] == key;
    assert(b[i] == key);
}

/// No more requests of a query succeed or fail than it initiates.
pub proof fn counters_are_bounded<TInner>(query: QueryView<TInner>)
    requires
        query.wf(),
    ensures
        query.stats.wf(),
{
}

/// A weighted peer to contact comes first, and the swamp is left alone then.
pub proof fn weighted_comes_first<TInner>(query: QueryView<TInner>, now: Instant)
    ensures
        query.weighted.next(now).1 matches PeersIterState::Waiting(Some(peer)) ==> {
            &&& query.next(now).1 == PeersIterState::Waiting(Some(peer))
            &&& query.next(now).0.swamp == query.swamp
        },
{
}

/// A peer to contact comes with one more request, and nothing else does.
pub proof fn contacts_are_counted<TInner>(query: QueryView<TInner>, now: Instant)
    requires
        query.stats.requests < u32::MAX,
    ensures
        query.next(now).0.stats.requests == query.stats.requests + if query.next(
            now,
        ).1 matches PeersIterState::Waiting(Some(_)) {
            1int
        } else {
            0
        },
        query.next(now).0.stats.success == query.stats.success,
        query.next(now).0.stats.failure == query.stats.failure,
{
}

/// A query that is stopped has finished.
pub proof fn stopped_is_finished<TInner>(query: QueryView<TInner>)
    ensures
        query.finish().is_finished(),
        query.finish().result() == query.result(),
{
}

/// A finished query yields no more peers to contact and stays as it is.
pub proof fn finished_stays_finished<TInner>(query: QueryView<TInner>, now: Instant)
    requires
        query.is_finished(),
    ensures
        query.next(now) == (query, PeersIterState::Finished),
{
}

/// A finished query takes no more results.
pub proof fn finished_takes_no_results<TInner>(
    query: QueryView<TInner>,
    peer: PeerId,
    peers: Seq<WeightedPeer>,
)
    requires
        query.is_finished(),
    ensures
        query.on_failure(peer) == query,
        query.on_success(peer, peers) == query,
{
}

/// A query that is done has finished for good.
pub proof fn done_is_finished<TInner>(query: QueryView<TInner>, now: Instant)
    ensures
        query.next(now).1 is Finished ==> query.next(now).0.is_finished(),
{
    done_source_is_finished(query.weighted, now);
    done_source_is_finished(query.swamp, now);
}

/// The result of a query holds the peers that answered, those with a weight
/// first.
pub proof fn result_holds_answers<TInner>(query: QueryView<TInner>, n: int)
    requires
        0 <= n < query.result().len(),
    ensures
        if n < query.weighted.result().len() {
            query.weighted.has_answer(query.result()[n])
        } else {
            query.swamp.has_answer(query.result()[n])
        },
{
    if n < query.weighted.result().len() {
        result_has_answers(query.weighted, n);
    } else {
        result_has_answers(query.swamp, n - query.weighted.result().len());
    }
}

/// A query over a fixed set of peers first asks for the first weighted peer.
pub proof fn fixed_query_starts_with_first<TInner>(
    id: QueryId,
    peers: Seq<WeightedPeer>,
    config: QueryConfig,
    inner: TInner,
    now: Instant,
)
    requires
        config.wf(),
        weighted_keys(peers).len() > 0,
    ensures
        QueryView::fresh(
            id,
            fixed_source(weighted_keys(peers), config),
            fixed_source(swamp_keys(peers), config),
            inner,
        ).next(now).1 == PeersIterState::Waiting(Some(weighted_keys(peers)[0].preimage)),
{
}

/// A query starts with the first peer that it asks for, and keeps its start from
/// then on; its end is set when it leaves the pool. A query that timed out was in
/// the pool at least as long as it may after its first poll.
pub proof fn polled_query_is_stamped<TInner>(
    query: QueryView<TInner>,
    now: Instant,
    timeout: Duration,
)
    ensures
        ({
            let (after, step) = polled(query, now, timeout);
            &&& after.id == query.id
            &&& after.inner == query.inner
            &&& after.stats.start == if query.stats.start is None && step is Contact {
                Some(now)
            } else {
                query.stats.start
            }
            &&& after.stats.end == query.stats.end
            &&& after.ended(now).stats.end == Some(now)
            &&& after.first_poll == if query.first_poll is None {
                Some(now)
            } else {
                query.first_poll
            }
            &&& step is Timeout ==> span_between(after.first_poll->0, now).nanos >= timeout.nanos
        }),
{
}

/// A query that leaves the pool without having asked for a peer has no duration.
pub proof fn query_without_contact_has_no_duration<TInner>(
    query: QueryView<TInner>,
    now: Instant,
    timeout: Duration,
    then: Instant,
)
    requires
        query.stats.start is None,
        !(polled(query, now, timeout).1 is Contact),
    ensures
        polled(query, now, timeout).0.ended(now).stats.duration_until(then) is None,
{
}

/// Results and the premature end of a query leave its start as it is.
pub proof fn replies_keep_start<TInner>(
    query: QueryView<TInner>,
    peer: PeerId,
    peers: Seq<WeightedPeer>,
)
    ensures
        query.on_failure(peer).stats.start == query.stats.start,
        query.on_success(peer, peers).stats.start == query.stats.start,
        query.finish().stats.start == query.stats.start,
{
}

/// A query that took as long as it may since its first poll is not left waiting:
/// it asks for a peer, has finished or has timed out.
pub proof fn overdue_query_is_not_left_waiting<TInner>(
    query: QueryView<TInner>,
    first: Instant,
    now: Instant,
    timeout: Duration,
)
    requires
        query.first_poll == Some(first),
        span_between(first, now).nanos >= timeout.nanos,
    ensures
        !(polled(query, now, timeout).1 is Pass),
{
}

/// The pool is idle if and only if there is no query.
pub proof fn idle_without_queries<TInner>(pool: PoolView<TInner>, order: Seq<usize>, now: Instant)
    requires
        is_order_of(order, pool.queries),
    ensures
        pool.poll(order, now).1 is Idle <==> pool.queries.dom() =~= Set::empty(),
{
    if order.len() == 0 {
        assert forall|k: usize| !pool.queries.contains_key(k) by {
            assert(!order.contains(k));
        }
    } else {
        assert(order.contains(order[0]));
        assert(pool.queries.contains_key(order[0]));
        nonempty_is_not_idle(pool, order, now);
    }
}

proof fn nonempty_is_not_idle<TInner>(pool: PoolView<TInner>, order: Seq<usize>, now: Instant)
    requires
        !(pool.queries.dom() =~= Set::empty()),
    ensures
        !(pool.poll(order, now).1 is Idle),
    decreases order.len(),
{
    if order.len() > 0 {
        let k = order[0];
        let (after, step) = polled(pool.queries[k], now, pool.config.timeout);
        assert(pool.with_query(k, after).queries.dom().contains(k));
        nonempty_is_not_idle(pool.with_query(k, after), order.skip(1), now);
    }
}

/// A poll changes neither the configuration nor the next number, and all
/// queries stay in the pool but the one that it reports as finished or timed
/// out.
pub proof fn poll_keeps_queries<TInner>(pool: PoolView<TInner>, order: Seq<usize>, now: Instant)
    requires
        pool.wf(),
        order.no_duplicates(),
        forall|i: int| 0 <= i < order.len() ==> pool.queries.contains_key(#[trigger] order[i]),
    ensures
        ({
            let (after, outcome) = pool.poll(order, now);
            &&& after.config == pool.config
            &&& after.next_id == pool.next_id
            &&& match outcome {
                PollOutcome::Finished(gone) => pool.queries.contains_key(gone.id.0)
                    && after.queries.dom() =~= pool.queries.dom().remove(gone.id.0),
                PollOutcome::Timeout(gone) => pool.queries.contains_key(gone.id.0)
                    && after.queries.dom() =~= pool.queries.dom().remove(gone.id.0),
                PollOutcome::Contact(id, peer) => pool.queries.contains_key(id.0)
                    && after.queries.dom() =~= pool.queries.dom(),
                _ => after.queries.dom() =~= pool.queries.dom(),
            }
        }),
    decreases order.len(),
{
    if order.len() > 0 {
        let k = order[0];
        let (after, step) = polled(pool.queries[k], now, pool.config.timeout);
        polled_query_is_stamped(pool.queries[k], now, pool.config.timeout);
        if step is Pass {
            contact_opens(pool.queries[k].weighted, now);
            contact_opens(pool.queries[k].swamp, now);
            poll_keeps_queries(pool.with_query(k, after), order.skip(1), now);
        }
    }
}

/// Whether all queries have numbers below the next one.
pub open spec fn ids_below_next<TInner>(pool: PoolView<TInner>) -> bool {
    forall|k: usize| #[trigger] pool.queries.contains_key(k) ==> k < pool.next_id
}

/// As long as the numbers do not wrap around, a new query gets one that no other
/// has, and the next one differs again.
pub proof fn new_ids_are_fresh<TInner>(pool: PoolView<TInner>, query: QueryView<TInner>)
    requires
        ids_below_next(pool),
        pool.next_id < usize::MAX,
    ensures
        !pool.queries.contains_key(pool.next_id),
        ({
            let after = pool.with_next_id().with_query(pool.next_id, query);
            &&& ids_below_next(after)
            &&& after.next_id == pool.next_id + 1
        }),
{
}

/// A poll gives out no numbers.
pub proof fn poll_keeps_ids_below_next<TInner>(
    pool: PoolView<TInner>,
    order: Seq<usize>,
    now: Instant,
)
    requires
        pool.wf(),
        is_order_of(order, pool.queries),
        ids_below_next(pool),
    ensures
        ids_below_next(pool.poll(order, now).0),
{
    assert forall|i: int| 0 <= i < order.len() implies pool.queries.contains_key(
        #[trigger] order[i],
    ) by {
        assert(order.contains(order[i]));
    }
    poll_keeps_queries(pool, order, now);
    let after = pool.poll(order, now).0;
    assert forall|k: usize| #[trigger] after.queries.contains_key(k) implies k < after.next_id by {
        assert(after.queries.dom().contains(k));
        assert(pool.queries.dom().contains(k));
        assert(pool.queries.contains_key(k));
    }
}

/// Whether the next number stays, or one is given out and the numbers do not wrap
/// around.
pub open spec fn id_step<TInner>(before: PoolView<TInner>, after: PoolView<TInner>) -> bool {
    ||| after.next_id == before.next_id
    ||| before.next_id < usize::MAX && after.next_id == before.with_next_id().next_id
}

/// As long as the numbers do not wrap around, no number is given out twice: a query
/// that is added later gets a higher one, whether the earlier query is still in the
/// pool or not.
pub proof fn ids_are_not_reused<TInner>(pools: Seq<PoolView<TInner>>, i: int, j: int)
    requires
        0 <= i < j < pools.len(),
        forall|k: int| 0 <= k < pools.len() - 1 ==> id_step(#[trigger] pools[k], pools[k + 1]),
        pools[i].next_id < usize::MAX,
        pools[i + 1].next_id == pools[i].with_next_id().next_id,
    ensures
        pools[i].next_id < pools[j].next_id,
    decreases j,
{
    if j > i + 1 {
        ids_are_not_reused(pools, i, j - 1);
        assert(id_step(pools[j - 1], pools[j - 1 + 1]));
    }
}

/// No poll gives out a number.
pub proof fn poll_keeps_next_id<TInner>(pool: PoolView<TInner>, order: Seq<usize>, now: Instant)
    ensures
        id_step(pool, pool.poll(order, now).0),
        pool.poll(order, now).0.next_id == pool.next_id,
    decreases order.len(),
{
    if order.len() > 0 {
        let k = order[0];
        let (after, step) = polled(pool.queries[k], now, pool.config.timeout);
        poll_keeps_next_id(pool.with_query(k, after), order.skip(1), now);
    }
}

/// A query that is added is in the pool, which is then larger by one; the other
/// queries stay as they are.
pub proof fn added_query_is_in_pool<TInner>(
    pool: PoolView<TInner>,
    k: usize,
    query: QueryView<TInner>,
)
    requires
        pool.wf(),
        !pool.queries.contains_key(k),
    ensures
        pool.with_query(k, query).queries.contains_key(k),
        pool.with_query(k, query).queries[k] == query,
        pool.with_query(k, query).queries.len() == pool.queries.len() + 1,
        forall|j: usize| #[trigger]
            pool.queries.contains_key(j) ==> pool.with_query(k, query).queries[j]
                == pool.queries[j],
{
}

} // verus!
