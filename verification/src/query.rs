//! Queries, which contact peers one after the other, and the pool that drives
//! them to completion.
//!
//! A query keeps apart the peers that have a weight and those that have none,
//! which form the swamp: it turns to the swamp only when there is no weighted
//! peer to contact.

use vstd::prelude::*;

use crate::kbucket::key::Key;
use crate::peer::PeerId;
use crate::query::peers::PeersIterState;
use crate::query::source::{
    contact_opens, failure_closes, success_closes, PeerSource, QueryPeerIter,
};
use crate::query::stats::no_stats;
use crate::time::Instant;

pub mod laws;
pub mod map;
pub mod peers;
pub mod poll_laws;
pub mod pool;
pub mod progress;
pub mod query_laws;
pub mod source;
pub mod stats;

pub use crate::query::pool::{QueryConfig, QueryPool, QueryPoolState};
pub use crate::query::stats::QueryStats;

verus! {

/// Peer along with its weight
#[derive(Debug, Clone)]
pub struct WeightedPeer {
    /// Kademlia key & id of the peer
    pub peer_id: Key<PeerId>,
    /// Weight, calculated locally
    pub weight: u32,
}

/// Unique identifier for an active query.
#[derive(Debug, Copy, Clone, Hash, PartialEq, Eq, Structural)]
pub struct QueryId(pub usize);

/// The keys of those peers that have a weight, in their order.
pub open spec fn weighted_keys(peers: Seq<WeightedPeer>) -> Seq<Key<PeerId>>
    decreases peers.len(),
{
    if peers.len() == 0 {
        Seq::empty()
    } else if peers.last().weight != 0 {
        weighted_keys(peers.drop_last()).push(peers.last().peer_id)
    } else {
        weighted_keys(peers.drop_last())
    }
}

/// The keys of those peers that have no weight, in their order.
pub open spec fn swamp_keys(peers: Seq<WeightedPeer>) -> Seq<Key<PeerId>>
    decreases peers.len(),
{
    if peers.len() == 0 {
        Seq::empty()
    } else if peers.last().weight == 0 {
        swamp_keys(peers.drop_last()).push(peers.last().peer_id)
    } else {
        swamp_keys(peers.drop_last())
    }
}

/// The peers that the keys are made from.
pub open spec fn preimages_of(keys: Seq<Key<PeerId>>) -> Seq<PeerId> {
    keys.map_values(|key: Key<PeerId>| key.preimage)
}

/// Parts the peers that have no weight from those that have one. Gives the keys
/// of the former, then those of the latter.
pub(crate) fn part_by_weight(peers: Vec<WeightedPeer>) -> (r: (Vec<Key<PeerId>>, Vec<Key<PeerId>>))
    ensures
        r.0@ == swamp_keys(peers@),
        r.1@ == weighted_keys(peers@),
{
    let mut swamp: Vec<Key<PeerId>> = Vec::new();
    let mut weighted: Vec<Key<PeerId>> = Vec::new();
    let mut i: usize = 0;
    assert(peers@.take(0) =~= Seq::empty());
    while i < peers.len()
        invariant
            i <= peers@.len(),
            swamp@ == swamp_keys(peers@.take(i as int)),
            weighted@ == weighted_keys(peers@.take(i as int)),
        decreases peers@.len() - i,
    {
        assert(peers@.take(i + 1).drop_last() =~= peers@.take(i as int));
        if peers[i].weight == 0 {
            swamp.push(peers[i].peer_id);
        } else {
            weighted.push(peers[i].peer_id);
        }
        i = i + 1;
    }
    assert(peers@.take(i as int) =~= peers@);
    (swamp, weighted)
}

/// The peers that the keys are made from.
pub(crate) fn into_preimages(keys: Vec<Key<PeerId>>) -> (r: Vec<PeerId>)
    ensures
        r@ == preimages_of(keys@),
{
    let mut r: Vec<PeerId> = Vec::new();
    let mut i: usize = 0;
    while i < keys.len()
        invariant
            i <= keys@.len(),
            r@ == preimages_of(keys@.take(i as int)),
        decreases keys@.len() - i,
    {
        r.push(keys[i].into_preimage());
        assert(r@ =~= preimages_of(keys@.take(i + 1)));
        i = i + 1;
    }
    assert(keys@.take(i as int) =~= keys@);
    r
}

/// The contents of a [`Query`].
pub struct QueryView<TInner> {
    /// The unique ID of the query.
    pub id: QueryId,
    /// The iterator over the peers that have a weight.
    pub weighted: PeerSource,
    /// The iterator over the peers that have no weight.
    pub swamp: PeerSource,
    /// Execution statistics of the query.
    pub stats: QueryStats,
    /// When the query was polled first.
    pub first_poll: Option<Instant>,
    /// The opaque inner query state.
    pub inner: TInner,
}

impl<TInner> QueryView<TInner> {
    /// Whether each request was initiated that succeeded, failed or is open.
    pub open spec fn wf(self) -> bool {
        self.stats.success + self.stats.failure + self.weighted.open_requests()
            + self.swamp.open_requests() <= self.stats.requests
    }

    /// A query that did not start.
    pub open spec fn fresh(
        id: QueryId,
        weighted: PeerSource,
        swamp: PeerSource,
        inner: TInner,
    ) -> QueryView<TInner> {
        QueryView { id, weighted, swamp, stats: no_stats(), first_poll: None, inner }
    }

    /// What follows when the attempt to contact a peer failed. It counts if
    /// one of the iterators expected a result of the peer.
    pub open spec fn on_failure(self, peer: PeerId) -> QueryView<TInner> {
        let (weighted, from_weighted) = self.weighted.on_failure(peer);
        let (swamp, from_swamp) = self.swamp.on_failure(peer);
        QueryView {
            weighted,
            swamp,
            stats: QueryStats {
                failure: if from_weighted || from_swamp {
                    (self.stats.failure + 1) as u32
                } else {
                    self.stats.failure
                },
                ..self.stats
            },
            ..self
        }
    }

    /// What follows when a peer answered with other peers, each of which goes
    /// to the iterator for its kind. The answer counts if one of the iterators
    /// expected it.
    pub open spec fn on_success(self, peer: PeerId, peers: Seq<WeightedPeer>) -> QueryView<
        TInner,
    > {
        let (weighted, from_weighted) = self.weighted.on_success(peer, weighted_keys(peers));
        let (swamp, from_swamp) = self.swamp.on_success(peer, swamp_keys(peers));
        QueryView {
            weighted,
            swamp,
            stats: QueryStats {
                success: if from_weighted || from_swamp {
                    (self.stats.success + 1) as u32
                } else {
                    self.stats.success
                },
                ..self.stats
            },
            ..self
        }
    }

    /// Whether a result of the peer is waited for.
    pub open spec fn is_waiting(self, peer: PeerId) -> bool {
        self.weighted.is_waiting(peer) || self.swamp.is_waiting(peer)
    }

    /// The query with one more request.
    pub open spec fn with_request(self) -> QueryView<TInner> {
        QueryView {
            stats: QueryStats { requests: (self.stats.requests + 1) as u32, ..self.stats },
            ..self
        }
    }

    /// What follows when the query is asked for a peer to contact, and its
    /// answer.
    pub open spec fn next(self, now: Instant) -> (QueryView<TInner>, PeersIterState) {
        let (weighted, weighted_state) = self.weighted.next(now);
        let (swamp, swamp_state) = self.swamp.next(now);
        if weighted_state matches PeersIterState::Waiting(Some(_)) {
            (QueryView { weighted, ..self }.with_request(), weighted_state)
        } else if swamp_state matches PeersIterState::Waiting(Some(_)) {
            (QueryView { weighted, swamp, ..self }.with_request(), swamp_state)
        } else if weighted_state is Finished {
            (QueryView { weighted, swamp, ..self }, swamp_state)
        } else {
            (QueryView { weighted, swamp, ..self }, weighted_state)
        }
    }

    /// What follows when the query is stopped.
    pub open spec fn finish(self) -> QueryView<TInner> {
        QueryView { weighted: self.weighted.finish(), swamp: self.swamp.finish(), ..self }
    }

    /// Whether the query has finished.
    pub open spec fn is_finished(self) -> bool {
        self.weighted.is_finished() && self.swamp.is_finished()
    }

    /// The peers that answered, those with a weight first.
    pub open spec fn result(self) -> Seq<PeerId> {
        self.weighted.result() + self.swamp.result()
    }

    /// The query with `now` as the instant at which it was polled first, unless it
    /// was polled before.
    pub open spec fn asked(self, now: Instant) -> QueryView<TInner> {
        QueryView {
            first_poll: if self.first_poll is Some {
                self.first_poll
            } else {
                Some(now)
            },
            ..self
        }
    }

    /// The query with `now` as its start, unless it has started.
    pub open spec fn started(self, now: Instant) -> QueryView<TInner> {
        QueryView {
            stats: QueryStats {
                start: if self.stats.start is Some {
                    self.stats.start
                } else {
                    Some(now)
                },
                ..self.stats
            },
            ..self
        }
    }

    /// The query with `now` as its end.
    pub open spec fn ended(self, now: Instant) -> QueryView<TInner> {
        QueryView { stats: QueryStats { end: Some(now), ..self.stats }, ..self }
    }
}

/// A query in a pool.
#[derive(Debug)]
pub struct Query<TInner> {
    /// The unique ID of the query.
    id: QueryId,
    /// The iterator over the peers that have a weight.
    weighted_iter: QueryPeerIter,
    /// The iterator over the peers that have no weight.
    swamp_iter: QueryPeerIter,
    /// Execution statistics of the query.
    stats: QueryStats,
    /// When the query was polled first.
    first_poll: Option<Instant>,
    /// The opaque inner query state.
    pub inner: TInner,
}

impl<TInner> View for Query<TInner> {
    type V = QueryView<TInner>;

    closed spec fn view(&self) -> QueryView<TInner> {
        QueryView {
            id: self.id,
            weighted: self.weighted_iter@,
            swamp: self.swamp_iter@,
            stats: self.stats,
            first_poll: self.first_poll,
            inner: self.inner,
        }
    }
}

impl<TInner> Query<TInner> {
    /// Creates a new query without starting it.
    pub(crate) fn new(
        id: QueryId,
        weighted_iter: QueryPeerIter,
        swamp_iter: QueryPeerIter,
        inner: TInner,
    ) -> (r: Query<TInner>)
        ensures
            r@ == QueryView::fresh(id, weighted_iter@, swamp_iter@, inner),
    {
        Query {
            id,
            inner,
            weighted_iter,
            swamp_iter,
            stats: QueryStats::empty(),
            first_poll: None,
        }
    }

    /// Gets the unique ID of the query.
    pub fn id(&self) -> (id: QueryId)
        ensures
            id == self@.id,
    {
        self.id
    }

    /// Gets the current execution statistics of the query.
    pub fn stats(&self) -> (stats: &QueryStats)
        ensures
            *stats == self@.stats,
    {
        &self.stats
    }

    /// Gets the inner query state.
    pub fn inner(&self) -> (inner: &TInner)
        ensures
            *inner == self@.inner,
    {
        &self.inner
    }

    /// Gets the inner query state for changing it.
    pub fn inner_mut(&mut self) -> (inner: &mut TInner)
        ensures
            *inner == old(self)@.inner,
            final(self)@ == (QueryView { inner: *final(inner), ..old(self)@ }),
    {
        &mut self.inner
    }

    /// Informs the query that the attempt to contact `peer` failed.
    pub fn on_failure(&mut self, peer: &PeerId)
        requires
            old(self)@.wf(),
        ensures
            final(self)@ == old(self)@.on_failure(*peer),
            final(self)@.wf(),
    {
        proof {
            failure_closes(self@.weighted, *peer);
            failure_closes(self@.swamp, *peer);
        }
        let updated_swamp = self.swamp_iter.on_failure(peer);
        let updated_weighted = self.weighted_iter.on_failure(peer);
        if updated_swamp || updated_weighted {
            self.stats.failure = self.stats.failure + 1;
        }
    }

    /// Informs the query that the attempt to contact `peer` succeeded,
    /// possibly resulting in new peers that should be incorporated into
    /// the query, if applicable.
    pub fn on_success(&mut self, peer: &PeerId, new_peers: Vec<WeightedPeer>)
        requires
            old(self)@.wf(),
        ensures
            final(self)@ == old(self)@.on_success(*peer, new_peers@),
            final(self)@.wf(),
    {
        proof {
            success_closes(self@.weighted, *peer, weighted_keys(new_peers@));
            success_closes(self@.swamp, *peer, swamp_keys(new_peers@));
        }
        let (swamp, weighted) = part_by_weight(new_peers);
        let updated_swamp = self.swamp_iter.on_success(peer, swamp);
        let updated_weighted = self.weighted_iter.on_success(peer, weighted);
        if updated_swamp || updated_weighted {
            self.stats.success = self.stats.success + 1;
        }
    }

    /// Checks whether the query is currently waiting for a result from `peer`.
    pub fn is_waiting(&self, peer: &PeerId) -> (b: bool)
        ensures
            b == self@.is_waiting(*peer),
    {
        let weighted_waiting = self.weighted_iter.is_waiting(peer);
        let swamp_waiting = self.swamp_iter.is_waiting(peer);
        weighted_waiting || swamp_waiting
    }

    /// Advances the state of the underlying peer iterators.
    pub(crate) fn next(&mut self, now: Instant) -> (r: PeersIterState)
        requires
            old(self)@.wf(),
            old(self)@.stats.requests < u32::MAX,
        ensures
            (final(self)@, r) == old(self)@.next(now),
            final(self)@.wf(),
    {
        proof {
            contact_opens(self@.weighted, now);
            contact_opens(self@.swamp, now);
        }
        // First query weighted iter
        let weighted_state = self.weighted_iter.next(now);
        // If there's a new weighted peer to send rpc to, return it
        if let PeersIterState::Waiting(Some(_)) = weighted_state {
            self.stats.requests = self.stats.requests + 1;
            return weighted_state;
        }
        // If there was no new weighted peer, check swamp
        let swamp_state = self.swamp_iter.next(now);
        // If there's a new swamp peer to send rpc to, return it
        if let PeersIterState::Waiting(Some(_)) = swamp_state {
            self.stats.requests = self.stats.requests + 1;
            return swamp_state;
        }
        // Return remaining state: weighted has higher priority
        match weighted_state {
            PeersIterState::Finished => swamp_state,
            weighted => weighted,
        }
    }

    /// Notes that the query is polled, and gives the instant at which that happened
    /// first.
    pub(crate) fn ask(&mut self, now: Instant) -> (first: Instant)
        ensures
            final(self)@ == old(self)@.asked(now),
            final(self)@.first_poll == Some(first),
    {
        match self.first_poll {
            Some(first) => first,
            None => {
                self.first_poll = Some(now);
                now
            },
        }
    }

    /// Notes `now` as the start of the query, unless it has started.
    pub(crate) fn start(&mut self, now: Instant)
        ensures
            final(self)@ == old(self)@.started(now),
    {
        if self.stats.start.is_none() {
            self.stats.start = Some(now);
        }
    }

    /// Notes `now` as the end of the query.
    pub(crate) fn end(&mut self, now: Instant)
        ensures
            final(self)@ == old(self)@.ended(now),
    {
        self.stats.end = Some(now);
    }

    /// Finishes the query prematurely.
    ///
    /// A finished query immediately stops yielding new peers to contact and
    /// will be reported by the poll of its pool as finished.
    pub fn finish(&mut self)
        ensures
            final(self)@ == old(self)@.finish(),
            old(self)@.wf() ==> final(self)@.wf(),
    {
        self.weighted_iter.finish();
        self.swamp_iter.finish();
    }

    /// Checks whether the query has finished.
    ///
    /// A finished query is eventually reported by the poll of its pool and
    /// removed from the pool.
    pub fn is_finished(&self) -> (b: bool)
        ensures
            b == self@.is_finished(),
    {
        let weighted_finished = self.weighted_iter.is_finished();
        let swamp_finished = self.swamp_iter.is_finished();
        weighted_finished && swamp_finished
    }

    /// Consumes the query, producing the final `QueryResult`.
    pub fn into_result(self) -> (r: QueryResult<TInner, Vec<PeerId>>)
        ensures
            r.inner == self@.inner,
            r.peers@ == self@.result(),
            r.stats == self@.stats,
    {
        let mut peers = self.weighted_iter.into_result();
        let mut swamp = self.swamp_iter.into_result();
        peers.append(&mut swamp);
        QueryResult { peers, inner: self.inner, stats: self.stats }
    }
}

/// The result of a `Query`.
#[derive(Debug)]
pub struct QueryResult<TInner, TPeers> {
    /// The opaque inner query state.
    pub inner: TInner,
    /// The successfully contacted peers.
    pub peers: TPeers,
    /// The collected query statistics.
    pub stats: QueryStats,
}

} // verus!
