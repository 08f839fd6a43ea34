//! How queries relate to their iterators, and what they make of new peers, answers and
//! failures.

use vstd::prelude::*;

use crate::kbucket::key::{Key, KeyBytes};
use crate::peer::PeerId;
use crate::query::peers::answer_laws::{
    answer_is_taken, is_asked, knows, starts_with_first_keys,
};
use crate::query::peers::closest::{
    first_keys, with_keys, ClosestPeers, ContactState, Headway,
};
use crate::query::peers::fixed::{FixedPeers, PeerState};
use crate::query::peers::PeersIterState;
use crate::query::pool::{
    closest_source, polled, PollOutcome, PoolView, QueryConfig, Step,
};
use crate::query::source::PeerSource;
use crate::query::{
    preimages_of, swamp_keys, weighted_keys, QueryId, QueryView, WeightedPeer,
};
use crate::time::{Duration, Instant};

verus! {

/// The peers with a weight are those whose weight is not zero, in their order.
pub proof fn weighted_are_those_with_weight(peers: Seq<WeightedPeer>)
    ensures
        weighted_keys(peers) == peers.filter(|p: WeightedPeer| p.weight > 0).map_values(
            |p: WeightedPeer| p.peer_id,
        ),
    decreases peers.len(),
{
    broadcast use Seq::lemma_filter_push;

    let q = |p: WeightedPeer| p.weight > 0;
    let f = |p: WeightedPeer| p.peer_id;
    if peers.len() > 0 {
        let init = peers.drop_last();
        weighted_are_those_with_weight(init);
        assert(peers =~= init.push(peers.last()));
    } else {
        assert(peers.filter(q).len() == 0) by {
            reveal(Seq::filter);
        }
    }
    assert(weighted_keys(peers) =~= peers.filter(q).map_values(f));
}

/// The swamp is made of the peers whose weight is zero, in their order.
pub proof fn swamp_are_those_without_weight(peers: Seq<WeightedPeer>)
    ensures
        swamp_keys(peers) == peers.filter(|p: WeightedPeer| p.weight == 0).map_values(
            |p: WeightedPeer| p.peer_id,
        ),
    decreases peers.len(),
{
    broadcast use Seq::lemma_filter_push;

    let q = |p: WeightedPeer| p.weight == 0;
    let f = |p: WeightedPeer| p.peer_id;
    if peers.len() > 0 {
        let init = peers.drop_last();
        swamp_are_those_without_weight(init);
        assert(peers =~= init.push(peers.last()));
    } else {
        assert(peers.filter(q).len() == 0) by {
            reveal(Seq::filter);
        }
    }
    assert(swamp_keys(peers) =~= peers.filter(q).map_values(f));
}

proof fn key_of_peer(peers: Seq<WeightedPeer>, i: int)
    requires
        0 <= i < peers.len(),
    ensures
        peers[i].weight == 0 ==> swamp_keys(peers).contains(peers[i].peer_id),
        peers[i].weight != 0 ==> weighted_keys(peers).contains(peers[i].peer_id),
{
    crate::query::laws::each_peer_has_one_place(peers);
}

/// A query says that it has finished if and only if both iterators say so. It asks the
/// iterator of the weighted peers, and the other one only if the former has no peer to
/// contact; it leaves both as they leave themselves, and gives the state of the former unless
/// that has finished or the latter has a peer to contact.
pub proof fn query_asks_its_iterators<TInner>(query: QueryView<TInner>, now: Instant)
    ensures
        ({
            let (after, state) = query.next(now);
            let (weighted, first) = query.weighted.next(now);
            let (swamp, second) = query.swamp.next(now);
            let has_weighted = first matches PeersIterState::Waiting(Some(_));
            let has_swamp = second matches PeersIterState::Waiting(Some(_));
            &&& state is Finished <==> first is Finished && second is Finished
            &&& after.weighted == weighted
            &&& has_weighted ==> state == first && after.swamp == query.swamp
            &&& !has_weighted ==> after.swamp == swamp
            &&& !has_weighted && has_swamp ==> state == second
            &&& !has_weighted && !has_swamp && !(first is Finished) ==> state == first
            &&& first is Finished ==> state == second
            &&& after.id == query.id
            &&& after.inner == query.inner
            &&& after.first_poll == query.first_poll
            &&& after.stats.start == query.stats.start
            &&& after.stats.end == query.stats.end
            &&& after.stats.success == query.stats.success
            &&& after.stats.failure == query.stats.failure
            &&& query.stats.requests < u32::MAX ==> after.stats.requests == query.stats.requests
                + if has_weighted || has_swamp {
                1int
            } else {
                0
            }
        }),
{
}

/// A query over fixed peers that finishes without being stopped waits for no peer.
pub proof fn finished_fixed_query_waits_for_none<TInner>(
    query: QueryView<TInner>,
    now: Instant,
    weighted: FixedPeers,
    swamp: FixedPeers,
)
    requires
        query.weighted == PeerSource::Fixed(weighted),
        query.swamp == PeerSource::Fixed(swamp),
        !weighted.finished,
        !swamp.finished,
        weighted.parallelism > 0,
        swamp.parallelism > 0,
        query.next(now).1 is Finished,
    ensures
        weighted.contacted.filter(
            |entry: (PeerId, PeerState)| entry.1 == PeerState::Waiting,
        ).len() == 0,
        swamp.contacted.filter(
            |entry: (PeerId, PeerState)| entry.1 == PeerState::Waiting,
        ).len() == 0,
{
    crate::query::peers::fixed_laws::waiting_are_counted(weighted.contacted, PeerState::Waiting);
    crate::query::peers::fixed_laws::waiting_are_counted(swamp.contacted, PeerState::Waiting);
}

/// A query waits for a peer if one of its iterators does; it has finished if both have.
pub proof fn query_is_both_iterators<TInner>(query: QueryView<TInner>, peer: PeerId)
    ensures
        query.is_waiting(peer) <==> query.weighted.is_waiting(peer) || query.swamp.is_waiting(
            peer,
        ),
        query.is_finished() <==> query.weighted.is_finished() && query.swamp.is_finished(),
        query.finish().weighted == query.weighted.finish(),
        query.finish().swamp == query.swamp.finish(),
        query.finish().id == query.id,
        query.finish().inner == query.inner,
        query.finish().stats == query.stats,
        query.finish().first_poll == query.first_poll,
{
}

/// The result of a query is that of the weighted peers, followed by that of the swamp.
pub proof fn result_is_both_results<TInner>(query: QueryView<TInner>)
    ensures
        query.result().len() == query.weighted.result().len() + query.swamp.result().len(),
        forall|i: int|
            0 <= i < query.weighted.result().len() ==> #[trigger] query.result()[i]
                == query.weighted.result()[i],
        forall|i: int|
            0 <= i < query.swamp.result().len() ==> query.result()[query.weighted.result().len()
                + i] == #[trigger] query.swamp.result()[i],
{
}

/// A failure reaches both iterators, and counts once if one of them expected it.
pub proof fn failure_reaches_both<TInner>(query: QueryView<TInner>, peer: PeerId)
    requires
        query.stats.failure < u32::MAX,
    ensures
        ({
            let after = query.on_failure(peer);
            let (weighted, first) = query.weighted.on_failure(peer);
            let (swamp, second) = query.swamp.on_failure(peer);
            &&& after.weighted == weighted
            &&& after.swamp == swamp
            &&& after.stats.failure == query.stats.failure + if first || second {
                1int
            } else {
                0
            }
            &&& after.stats.requests == query.stats.requests
            &&& after.stats.success == query.stats.success
            &&& after.stats.start == query.stats.start
            &&& after.stats.end == query.stats.end
            &&& after.id == query.id
            &&& after.inner == query.inner
            &&& after.first_poll == query.first_poll
        }),
{
}

/// An answer reaches both iterators, each with the new peers of its kind, and counts once if
/// one of them expected it.
pub proof fn answer_reaches_both<TInner>(
    query: QueryView<TInner>,
    peer: PeerId,
    peers: Seq<WeightedPeer>,
)
    requires
        query.stats.success < u32::MAX,
    ensures
        ({
            let after = query.on_success(peer, peers);
            let heavy = peers.filter(|p: WeightedPeer| p.weight > 0).map_values(
                |p: WeightedPeer| p.peer_id,
            );
            let light = peers.filter(|p: WeightedPeer| p.weight == 0).map_values(
                |p: WeightedPeer| p.peer_id,
            );
            let (weighted, first) = query.weighted.on_success(peer, heavy);
            let (swamp, second) = query.swamp.on_success(peer, light);
            &&& after.weighted == weighted
            &&& after.swamp == swamp
            &&& after.stats.success == query.stats.success + if first || second {
                1int
            } else {
                0
            }
            &&& after.stats.requests == query.stats.requests
            &&& after.stats.failure == query.stats.failure
            &&& after.stats.start == query.stats.start
            &&& after.stats.end == query.stats.end
            &&& after.id == query.id
            &&& after.inner == query.inner
            &&& after.first_poll == query.first_poll
        }),
{
    weighted_are_those_with_weight(peers);
    swamp_are_those_without_weight(peers);
}

/// After an answer that the iterator over the swamp expected, every peer of weight zero in
/// the answer is among its candidates, and the answering peer has succeeded.
pub proof fn swamp_learns_of_peers<TInner>(
    query: QueryView<TInner>,
    before: ClosestPeers,
    peer: PeerId,
    peers: Seq<WeightedPeer>,
    j: int,
)
    requires
        query.swamp == PeerSource::Closest(before),
        before.headway != Headway::Finished,
        is_asked(before, peer, j),
    ensures
        query.on_success(peer, peers).swamp matches PeerSource::Closest(after) && {
            &&& after.target == before.target
            &&& forall|i: int|
                0 <= i < peers.len() && (#[trigger] peers[i]).weight == 0 ==> knows(
                    before.target,
                    after.candidates,
                    peers[i].peer_id,
                )
            &&& exists|k: int|
                0 <= k < after.candidates.len() && (#[trigger] after.candidates[k]).key.preimage
                    == peer && after.candidates[k].state is Succeeded
        },
{
    let closer = swamp_keys(peers);
    answer_is_taken(before, peer, closer, j);
    let after = before.on_success(peer, closer).0;
    assert forall|i: int| 0 <= i < peers.len() && (#[trigger] peers[i]).weight == 0 implies knows(
        before.target,
        after.candidates,
        peers[i].peer_id,
    ) by {
        key_of_peer(peers, i);
        let n = choose|n: int| 0 <= n < closer.len() && closer[n] == peers[i].peer_id;
        assert(knows(before.target, after.candidates, closer[n]));
    }
    let k = choose|k: int|
        0 <= k < after.candidates.len() && (#[trigger] after.candidates[k]).key
            == before.candidates[j].key && after.candidates[k].state == ContactState::Succeeded;
    assert(after.candidates[k].key.preimage == peer);
}

/// After an answer that the iterator over the weighted peers expected, every peer with a
/// weight in the answer is among its candidates, and the answering peer has succeeded.
pub proof fn weighted_learns_of_peers<TInner>(
    query: QueryView<TInner>,
    before: ClosestPeers,
    peer: PeerId,
    peers: Seq<WeightedPeer>,
    j: int,
)
    requires
        query.weighted == PeerSource::Closest(before),
        before.headway != Headway::Finished,
        is_asked(before, peer, j),
    ensures
        query.on_success(peer, peers).weighted matches PeerSource::Closest(after) && {
            &&& after.target == before.target
            &&& forall|i: int|
                0 <= i < peers.len() && (#[trigger] peers[i]).weight != 0 ==> knows(
                    before.target,
                    after.candidates,
                    peers[i].peer_id,
                )
            &&& exists|k: int|
                0 <= k < after.candidates.len() && (#[trigger] after.candidates[k]).key.preimage
                    == peer && after.candidates[k].state is Succeeded
        },
{
    let closer = weighted_keys(peers);
    answer_is_taken(before, peer, closer, j);
    let after = before.on_success(peer, closer).0;
    assert forall|i: int| 0 <= i < peers.len() && (#[trigger] peers[i]).weight != 0 implies knows(
        before.target,
        after.candidates,
        peers[i].peer_id,
    ) by {
        key_of_peer(peers, i);
        let n = choose|n: int| 0 <= n < closer.len() && closer[n] == peers[i].peer_id;
        assert(knows(before.target, after.candidates, closer[n]));
    }
    let k = choose|k: int|
        0 <= k < after.candidates.len() && (#[trigger] after.candidates[k]).key
            == before.candidates[j].key && after.candidates[k].state == ContactState::Succeeded;
    assert(after.candidates[k].key.preimage == peer);
}

/// What an iterator towards the closest peers does for a query is what it does itself.
pub proof fn closest_source_follows(
    p: ClosestPeers,
    peer: PeerId,
    closer: Seq<Key<PeerId>>,
    now: Instant,
)
    ensures
        ({
            let source = PeerSource::Closest(p);
            &&& source.on_failure(peer) == (
                PeerSource::Closest(p.on_failure(peer).0),
                p.on_failure(peer).1,
            )
            &&& source.on_success(peer, closer) == (
                PeerSource::Closest(p.on_success(peer, closer).0),
                p.on_success(peer, closer).1,
            )
            &&& source.next(now) == (PeerSource::Closest(p.next(now).0), p.next(now).1)
            &&& source.finish() == PeerSource::Closest(p.finish())
            &&& source.is_waiting(peer) == p.is_waiting(peer)
            &&& source.is_finished() == (p.headway == Headway::Finished)
            &&& source.result() == p.result()
        }),
{
}

/// What an iterator over fixed peers does for a query is what it does itself. It takes no
/// new peers from answers.
pub proof fn fixed_source_follows(
    p: FixedPeers,
    peer: PeerId,
    closer: Seq<Key<PeerId>>,
    now: Instant,
)
    ensures
        ({
            let source = PeerSource::Fixed(p);
            &&& source.on_failure(peer) == (
                PeerSource::Fixed(p.on_reply(peer, PeerState::Failed).0),
                p.on_reply(peer, PeerState::Failed).1,
            )
            &&& source.on_success(peer, closer) == (
                PeerSource::Fixed(p.on_reply(peer, PeerState::Succeeded).0),
                p.on_reply(peer, PeerState::Succeeded).1,
            )
            &&& source.next(now) == (PeerSource::Fixed(p.next().0), p.next().1)
            &&& source.finish() == PeerSource::Fixed(p.finish())
            &&& source.is_waiting(peer) == p.is_waiting(peer)
            &&& source.is_finished() == p.finished
            &&& source.result() == p.contacted.filter(
                |entry: (PeerId, PeerState)| entry.1 == PeerState::Succeeded,
            ).map_values(|entry: (PeerId, PeerState)| entry.0)
        }),
{
    crate::query::peers::fixed_laws::result_is_complete(p.contacted);
}

/// A new query over fixed peers has the weighted ones and the swamp in their order before it,
/// none contacted, with as many requests at the same time as the replication factor says.
pub proof fn new_fixed_query<TInner>(
    pool: PoolView<TInner>,
    id: QueryId,
    peers: Seq<WeightedPeer>,
    inner: TInner,
)
    ensures
        ({
            let after = pool.with_fixed(id, peers, inner);
            let query = after.queries[id.0];
            let heavy = peers.filter(|p: WeightedPeer| p.weight > 0);
            let light = peers.filter(|p: WeightedPeer| p.weight == 0);
            &&& after.queries.contains_key(id.0)
            &&& query.id == id
            &&& query.inner == inner
            &&& query.first_poll is None
            &&& query.stats.requests == 0 && query.stats.success == 0 && query.stats.failure == 0
            &&& query.stats.start is None && query.stats.end is None
            &&& query.weighted matches PeerSource::Fixed(w) && starts_fixed(w, heavy, pool.config)
            &&& query.swamp matches PeerSource::Fixed(s) && starts_fixed(s, light, pool.config)
            &&& after.config == pool.config
            &&& after.next_id == pool.next_id
            &&& forall|k: usize| #[trigger]
                after.queries.contains_key(k) && k != id.0 ==> pool.queries.contains_key(k)
                    && after.queries[k] == pool.queries[k]
            &&& forall|k: usize| #[trigger]
                pool.queries.contains_key(k) ==> after.queries.contains_key(k)
        }),
{
    weighted_are_those_with_weight(peers);
    swamp_are_those_without_weight(peers);
}

/// Whether an iterator over fixed peers has all of the given peers before it.
pub open spec fn starts_fixed(
    p: FixedPeers,
    peers: Seq<WeightedPeer>,
    config: QueryConfig,
) -> bool {
    &&& p.parallelism == config.replication_factor
    &&& p.contacted.len() == 0
    &&& !p.finished
    &&& p.backlog.len() == peers.len()
    &&& forall|i: int|
        0 <= i < peers.len() ==> #[trigger] p.backlog[i] == peers[i].peer_id.preimage
}

/// A new query towards the closest peers has candidates of both kinds, none contacted, wants
/// as many results as the replication factor says, and waits for three peers of each kind at
/// the same time, ten seconds each.
pub proof fn new_closest_query<TInner>(
    pool: PoolView<TInner>,
    id: QueryId,
    target: KeyBytes,
    peers: Seq<WeightedPeer>,
    inner: TInner,
)
    ensures
        ({
            let after = pool.with_closest(id, target, peers, inner);
            let query = after.queries[id.0];
            let heavy = peers.filter(|p: WeightedPeer| p.weight > 0);
            let light = peers.filter(|p: WeightedPeer| p.weight == 0);
            &&& after.queries.contains_key(id.0)
            &&& query.id == id
            &&& query.inner == inner
            &&& query.first_poll is None
            &&& query.stats.requests == 0 && query.stats.success == 0 && query.stats.failure == 0
            &&& query.stats.start is None && query.stats.end is None
            &&& query.weighted matches PeerSource::Closest(w) && starts_closest(
                w,
                target,
                heavy,
                pool.config,
            )
            &&& query.swamp matches PeerSource::Closest(s) && starts_closest(
                s,
                target,
                light,
                pool.config,
            )
            &&& after.config == pool.config
            &&& after.next_id == pool.next_id
            &&& forall|k: usize| #[trigger]
                after.queries.contains_key(k) && k != id.0 ==> pool.queries.contains_key(k)
                    && after.queries[k] == pool.queries[k]
            &&& forall|k: usize| #[trigger]
                pool.queries.contains_key(k) ==> after.queries.contains_key(k)
        }),
{
    let heavy = peers.filter(|p: WeightedPeer| p.weight > 0);
    let light = peers.filter(|p: WeightedPeer| p.weight == 0);
    weighted_are_those_with_weight(peers);
    swamp_are_those_without_weight(peers);
    closest_start(pool.config, target, heavy, weighted_keys(peers));
    closest_start(pool.config, target, light, swamp_keys(peers));
}

/// Whether an iterator towards the closest peers starts with the first of the given peers,
/// as many as fit a bucket.
pub open spec fn starts_closest(
    p: ClosestPeers,
    target: KeyBytes,
    peers: Seq<WeightedPeer>,
    config: QueryConfig,
) -> bool {
    &&& p.target == target
    &&& p.config.num_results == config.replication_factor
    &&& p.config.parallelism == 3
    &&& p.config.peer_timeout.nanos == 10_000_000_000
    &&& p.headway == Headway::Iterating { no_progress: 0 }
    &&& forall|i: int|
        0 <= i < peers.len() && i < 20 ==> knows(
            target,
            p.candidates,
            (#[trigger] peers[i]).peer_id,
        )
    &&& forall|k: int|
        0 <= k < p.candidates.len() ==> (#[trigger] p.candidates[k]).state is NotContacted
            && exists|i: int|
            0 <= i < peers.len() && i < 20 && (#[trigger] peers[i]).peer_id == p.candidates[k].key
}

proof fn closest_start(
    config: QueryConfig,
    target: KeyBytes,
    peers: Seq<WeightedPeer>,
    keys: Seq<Key<PeerId>>,
)
    requires
        keys == peers.map_values(|p: WeightedPeer| p.peer_id),
    ensures
        closest_source(target, keys, config) matches PeerSource::Closest(p) && starts_closest(
            p,
            target,
            peers,
            config,
        ),
{
    starts_with_first_keys(target, keys);
    let c = with_keys(target, Seq::empty(), first_keys(keys));
    assert forall|i: int| 0 <= i < peers.len() && i < 20 implies knows(
        target,
        c,
        (#[trigger] peers[i]).peer_id,
    ) by {
        assert(keys[i] == peers[i].peer_id);
    }
    assert forall|k: int| 0 <= k < c.len() implies exists|i: int|
        0 <= i < peers.len() && i < 20 && (#[trigger] peers[i]).peer_id == (
        #[trigger] c[k]).key by {
        assert(c[k].state is NotContacted);
        let i = choose|i: int| 0 <= i < keys.len() && i < 20 && #[trigger] keys[i] == c[k].key;
        assert(peers[i].peer_id == keys[i]);
    }
}

/// What a poll makes of a query is what the query says: finished, a peer to contact, or,
/// where it says neither, timed out if and only if its first poll lies back as far as it may.
pub proof fn poll_follows_query<TInner>(
    query: QueryView<TInner>,
    now: Instant,
    timeout: Duration,
    first: Instant,
    peer: PeerId,
)
    requires
        query.first_poll == Some(first) || query.first_poll is None && first == now,
    ensures
        ({
            let (after, step) = polled(query, now, timeout);
            let (next, state) = query.next(now);
            &&& step is Finished <==> state is Finished
            &&& step == Step::Contact(peer) <==> state == PeersIterState::Waiting(Some(peer))
            &&& step is Timeout <==> {
                &&& !(state is Finished)
                &&& !(state matches PeersIterState::Waiting(Some(_)))
                &&& timeout.nanos == 0 || now.nanos - first.nanos >= timeout.nanos
            }
            &&& after.weighted == next.weighted
            &&& after.swamp == next.swamp
            &&& after.id == query.id
            &&& after.inner == query.inner
            &&& after.stats.requests == next.stats.requests
            &&& after.stats.success == query.stats.success
            &&& after.stats.failure == query.stats.failure
            &&& after.first_poll == Some(first)
            &&& after.stats.end == query.stats.end
            &&& !(step is Contact) ==> after.stats.start == query.stats.start
            &&& step is Contact ==> after.stats.start is Some
            &&& query.stats.start is Some ==> after.stats.start == query.stats.start
            &&& step is Contact && query.stats.start is None ==> after.stats.start == Some(now)
        }),
{
}

/// A poll goes through the queries in the order up to the first that is not just waiting.
/// Those before it are left as their polls leave them, that one decides the outcome, and those
/// behind it are left alone.
pub proof fn poll_stops_at_first<TInner>(
    pool: PoolView<TInner>,
    order: Seq<usize>,
    now: Instant,
    n: int,
)
    requires
        order.no_duplicates(),
        forall|i: int| 0 <= i < order.len() ==> pool.queries.contains_key(#[trigger] order[i]),
        0 <= n <= order.len(),
        forall|i: int|
            0 <= i < n ==> polled(
                pool.queries[#[trigger] order[i]],
                now,
                pool.config.timeout,
            ).1 is Pass,
        n < order.len() ==> !(polled(
            pool.queries[order[n]],
            now,
            pool.config.timeout,
        ).1 is Pass),
    ensures
        ({
            let (after, outcome) = pool.poll(order, now);
            let (query, step) = polled(pool.queries[order[n]], now, pool.config.timeout);
            &&& after.config == pool.config
            &&& after.next_id == pool.next_id
            &&& forall|i: int|
                0 <= i < n ==> after.queries.contains_key(#[trigger] order[i])
                    && after.queries[order[i]] == polled(
                    pool.queries[order[i]],
                    now,
                    pool.config.timeout,
                ).0
            &&& forall|i: int|
                n < i < order.len() ==> after.queries.contains_key(#[trigger] order[i])
                    && after.queries[order[i]] == pool.queries[order[i]]
            &&& forall|k: usize| #[trigger]
                after.queries.contains_key(k) ==> pool.queries.contains_key(k)
            &&& if n == order.len() {
                &&& outcome is Waiting || outcome is Idle
                &&& outcome is Idle <==> forall|k: usize| !#[trigger] pool.queries.contains_key(k)
            } else {
                match step {
                    Step::Finished => {
                        &&& !after.queries.contains_key(order[n])
                        &&& outcome matches PollOutcome::Finished(gone) && left_with(
                            gone,
                            query,
                            now,
                        )
                    },
                    Step::Timeout => {
                        &&& !after.queries.contains_key(order[n])
                        &&& outcome matches PollOutcome::Timeout(gone) && left_with(
                            gone,
                            query,
                            now,
                        )
                    },
                    Step::Contact(peer) => {
                        &&& after.queries.contains_key(order[n])
                        &&& after.queries[order[n]] == query
                        &&& outcome matches PollOutcome::Contact(id, asked) && id.0 == order[n]
                            && asked == peer
                    },
                    Step::Pass => false,
                }
            }
        }),
    decreases n,
{
    if n > 0 {
        let first = order[0];
        let (query, step) = polled(pool.queries[first], now, pool.config.timeout);
        let next = pool.with_query(first, query);
        let rest = order.skip(1);
        assert(polled(pool.queries[order[0]], now, pool.config.timeout).1 is Pass);
        assert forall|i: int| 0 <= i < rest.len() implies next.queries.contains_key(
            #[trigger] rest[i],
        ) && next.queries[rest[i]] == pool.queries[rest[i]] by {
            assert(rest[i] == order[i + 1]);
            assert(pool.queries.contains_key(order[i + 1]));
        }
        assert forall|i: int| 0 <= i < n - 1 implies polled(
            next.queries[#[trigger] rest[i]],
            now,
            next.config.timeout,
        ).1 is Pass by {
            assert(rest[i] == order[i + 1]);
        }
        poll_stops_at_first(next, rest, now, n - 1);
        poll_leaves_others(next, rest, now, first);
        let after = pool.poll(order, now).0;
        assert forall|i: int| 0 <= i < n implies after.queries.contains_key(#[trigger] order[i])
            && after.queries[order[i]] == polled(
            pool.queries[order[i]],
            now,
            pool.config.timeout,
        ).0 by {
            if i > 0 {
                assert(rest[i - 1] == order[i]);
            }
        }
        assert forall|i: int| n < i < order.len() implies after.queries.contains_key(
            #[trigger] order[i],
        ) && after.queries[order[i]] == pool.queries[order[i]] by {
            assert(rest[i - 1] == order[i]);
        }
    } else {
        let after = pool.poll(order, now).0;
        assert forall|i: int| n < i < order.len() implies after.queries.contains_key(
            #[trigger] order[i],
        ) && after.queries[order[i]] == pool.queries[order[i]] by {
            assert(order[i] != order[0]);
        }
    }
}

/// Whether a query left the pool at `now`, in the state of the given one.
pub open spec fn left_with<TInner>(
    gone: QueryView<TInner>,
    query: QueryView<TInner>,
    now: Instant,
) -> bool {
    &&& gone.id == query.id
    &&& gone.inner == query.inner
    &&& gone.weighted == query.weighted
    &&& gone.swamp == query.swamp
    &&& gone.first_poll == query.first_poll
    &&& gone.stats.requests == query.stats.requests
    &&& gone.stats.success == query.stats.success
    &&& gone.stats.failure == query.stats.failure
    &&& gone.stats.start == query.stats.start
    &&& gone.stats.end == Some(now)
}

/// A poll leaves the queries alone that are not in its order.
pub proof fn poll_leaves_others<TInner>(
    pool: PoolView<TInner>,
    order: Seq<usize>,
    now: Instant,
    k: usize,
)
    requires
        !order.contains(k),
        pool.queries.contains_key(k),
    ensures
        pool.poll(order, now).0.queries.contains_key(k),
        pool.poll(order, now).0.queries[k] == pool.queries[k],
    decreases order.len(),
{
    if order.len() > 0 {
        let first = order[0];
        assert(order.contains(first));
        let (query, step) = polled(pool.queries[first], now, pool.config.timeout);
        let rest = order.skip(1);
        assert(!rest.contains(k)) by {
            if rest.contains(k) {
                let i = choose|i: int| 0 <= i < rest.len() && rest[i] == k;
                assert(order[i + 1] == k);
            }
        }
        poll_leaves_others(pool.with_query(first, query), rest, now, k);
    }
}

/// A finished query is given out by a poll with both iterators finished.
pub proof fn reported_query_has_finished<TInner>(
    query: QueryView<TInner>,
    now: Instant,
    timeout: Duration,
)
    ensures
        polled(query, now, timeout).1 is Finished ==> polled(
            query,
            now,
            timeout,
        ).0.is_finished(),
{
    crate::query::laws::done_is_finished(query.asked(now), now);
}

/// To put a query under a number, or to take it away, leaves all others as they are.
pub proof fn others_are_left_alone<TInner>(
    pool: PoolView<TInner>,
    k: usize,
    query: QueryView<TInner>,
    other: usize,
)
    ensures
        ({
            let with = pool.with_query(k, query);
            let without = pool.without_query(k);
            &&& with.queries.contains_key(k) && with.queries[k] == query
            &&& !without.queries.contains_key(k)
            &&& other != k ==> {
                &&& with.queries.contains_key(other) == pool.queries.contains_key(other)
                &&& without.queries.contains_key(other) == pool.queries.contains_key(other)
                &&& pool.queries.contains_key(other) ==> with.queries[other]
                    == pool.queries[other] && without.queries[other] == pool.queries[other]
            }
            &&& with.config == pool.config && without.config == pool.config
            &&& with.next_id == pool.next_id && without.next_id == pool.next_id
        }),
{
}

/// The numbers of queries go up one by one, and start again after the last.
pub proof fn numbers_go_up<TInner>(pool: PoolView<TInner>)
    ensures
        pool.next_id < usize::MAX ==> pool.with_next_id().next_id == pool.next_id + 1,
        pool.next_id == usize::MAX ==> pool.with_next_id().next_id == 0,
        pool.with_next_id().queries == pool.queries,
        pool.with_next_id().config == pool.config,
{
}

/// The peers that keys are made from come in the order of the keys.
pub proof fn preimages_follow_keys(keys: Seq<Key<PeerId>>)
    ensures
        preimages_of(keys).len() == keys.len(),
        forall|i: int| 0 <= i < keys.len() ==> #[trigger] preimages_of(keys)[i] == keys[i].preimage,
{
}

} // verus!
