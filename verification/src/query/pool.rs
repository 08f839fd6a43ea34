//! The pool that drives queries to completion.

use vstd::prelude::*;

use fnv::FnvHashMap;

use crate::kbucket::key::{Key, KeyBytes};
use crate::peer::PeerId;
use crate::query::laws::idle_without_queries;
use crate::query::map::{
    is_order_of, map_get, map_get_mut, map_insert, map_keys, map_len, map_remove, map_values_mut,
};
use crate::query::peers::closest::{
    default_config, first_keys, known_keys_open_no_request, with_keys, ClosestPeers,
    ClosestPeersIter, ClosestPeersIterConfig, Headway,
};
use crate::query::peers::fixed::{FixedPeers, FixedPeersIter};
use crate::query::peers::PeersIterState;
use crate::query::source::{PeerSource, QueryPeerIter};
use crate::query::{
    into_preimages, part_by_weight, preimages_of, swamp_keys, weighted_keys, Query, QueryId,
    QueryView, WeightedPeer,
};
use crate::time::{span_between, Duration, Instant};
use crate::K_VALUE;

verus! {

/// The configuration for queries in a `QueryPool`.
#[derive(Debug, Clone)]
pub struct QueryConfig {
    /// How long a query may take.
    pub timeout: Duration,
    /// The number of closest peers that must answer, and the number of peers of
    /// a fixed set that are contacted at the same time.
    pub replication_factor: usize,
}

impl QueryConfig {
    /// Whether the replication factor is positive.
    pub open spec fn wf(self) -> bool {
        self.replication_factor > 0
    }
}

impl Default for QueryConfig {
    fn default() -> (r: QueryConfig)
        ensures
            r.timeout.nanos == 60_000_000_000,
            r.replication_factor == K_VALUE,
            r.wf(),
    {
        QueryConfig { timeout: Duration::from_secs(60), replication_factor: K_VALUE }
    }
}

/// An iterator over a fixed set of peers, before its first step.
pub open spec fn fixed_source(keys: Seq<Key<PeerId>>, config: QueryConfig) -> PeerSource {
    PeerSource::Fixed(
        FixedPeers {
            parallelism: config.replication_factor as nat,
            contacted: Seq::empty(),
            backlog: preimages_of(keys),
            finished: false,
        },
    )
}

/// An iterator towards the peers closest to a target, before its first step.
pub open spec fn closest_source(
    target: KeyBytes,
    keys: Seq<Key<PeerId>>,
    config: QueryConfig,
) -> PeerSource {
    PeerSource::Closest(
        ClosestPeers {
            config: ClosestPeersIterConfig {
                num_results: config.replication_factor,
                ..default_config()
            },
            target,
            candidates: with_keys(target, Seq::empty(), first_keys(keys)),
            headway: Headway::Iterating { no_progress: 0 },
        },
    )
}

/// What a poll makes of one query.
pub enum Step {
    /// The query has finished.
    Finished,
    /// The query asks for this peer to be contacted.
    Contact(PeerId),
    /// The query has timed out.
    Timeout,
    /// The query is waiting.
    Pass,
}

/// What a poll makes of a pool.
pub enum PollOutcome<TInner> {
    /// There is no query.
    Idle,
    /// All queries are waiting.
    Waiting,
    /// The query with this ID asks for this peer to be contacted.
    Contact(QueryId, PeerId),
    /// This query has finished.
    Finished(QueryView<TInner>),
    /// This query has timed out.
    Timeout(QueryView<TInner>),
}

/// What follows for a query when it is polled, and what the poll makes of it. The
/// query starts when it asks for the first peer; it times out by the instant at
/// which it was polled first.
pub open spec fn polled<TInner>(query: QueryView<TInner>, now: Instant, timeout: Duration) -> (
    QueryView<TInner>,
    Step,
) {
    let first = query.asked(now).first_poll->0;
    let (after, state) = query.asked(now).next(now);
    match state {
        PeersIterState::Finished => (after, Step::Finished),
        PeersIterState::Waiting(Some(peer)) => (after.started(now), Step::Contact(peer)),
        _ => if span_between(first, now).nanos >= timeout.nanos {
            (after, Step::Timeout)
        } else {
            (after, Step::Pass)
        },
    }
}

/// The contents of a [`QueryPool`].
#[verifier::ext_equal]
pub struct PoolView<TInner> {
    /// The number of the next query.
    pub next_id: usize,
    /// The configuration for queries.
    pub config: QueryConfig,
    /// The queries by their numbers.
    pub queries: Map<usize, QueryView<TInner>>,
}

impl<TInner> PoolView<TInner> {
    /// Whether each query stands under its number and is in order itself.
    pub open spec fn wf(self) -> bool {
        &&& self.config.wf()
        &&& self.queries.dom().finite()
        &&& forall|k: usize| #[trigger]
            self.queries.contains_key(k) ==> self.queries[k].wf() && self.queries[k].id == QueryId(
                k,
            )
    }

    /// Whether each query can count one more request.
    pub open spec fn can_poll(self) -> bool {
        forall|k: usize| #[trigger]
            self.queries.contains_key(k) ==> self.queries[k].stats.requests < u32::MAX
    }

    /// The pool with another query under a number.
    pub open spec fn with_query(self, k: usize, query: QueryView<TInner>) -> PoolView<TInner> {
        PoolView { queries: self.queries.insert(k, query), ..self }
    }

    /// The pool without the query under a number.
    pub open spec fn without_query(self, k: usize) -> PoolView<TInner> {
        PoolView { queries: self.queries.remove(k), ..self }
    }

    /// The pool after it gave out the number of a query.
    pub open spec fn with_next_id(self) -> PoolView<TInner> {
        PoolView {
            next_id: if self.next_id < usize::MAX {
                (self.next_id + 1) as usize
            } else {
                0
            },
            ..self
        }
    }

    /// The pool with a query over a fixed set of peers.
    pub open spec fn with_fixed(
        self,
        id: QueryId,
        peers: Seq<WeightedPeer>,
        inner: TInner,
    ) -> PoolView<TInner> {
        self.with_query(
            id.0,
            QueryView::fresh(
                id,
                fixed_source(weighted_keys(peers), self.config),
                fixed_source(swamp_keys(peers), self.config),
                inner,
            ),
        )
    }

    /// The pool with a query towards the peers closest to a target.
    pub open spec fn with_closest(
        self,
        id: QueryId,
        target: KeyBytes,
        peers: Seq<WeightedPeer>,
        inner: TInner,
    ) -> PoolView<TInner> {
        self.with_query(
            id.0,
            QueryView::fresh(
                id,
                closest_source(target, weighted_keys(peers), self.config),
                closest_source(target, swamp_keys(peers), self.config),
                inner,
            ),
        )
    }

    /// What follows when the queries are polled in the given order, up to the
    /// first that is not just waiting, and what comes of it.
    pub open spec fn poll(self, order: Seq<usize>, now: Instant) -> (
        PoolView<TInner>,
        PollOutcome<TInner>,
    )
        decreases order.len(),
    {
        if order.len() == 0 {
            (
                self,
                if self.queries.dom() =~= Set::empty() {
                    PollOutcome::Idle
                } else {
                    PollOutcome::Waiting
                },
            )
        } else {
            let k = order[0];
            let (after, step) = polled(self.queries[k], now, self.config.timeout);
            match step {
                Step::Finished => (
                    self.without_query(k),
                    PollOutcome::Finished(after.ended(now)),
                ),
                Step::Contact(peer) => (
                    self.with_query(k, after),
                    PollOutcome::Contact(QueryId(k), peer),
                ),
                Step::Timeout => (self.without_query(k), PollOutcome::Timeout(after.ended(now))),
                Step::Pass => self.with_query(k, after).poll(order.skip(1), now),
            }
        }
    }
}

/// A `QueryPool` provides an aggregate state machine for driving `Query`s to
/// completion.
///
/// Internally, a `Query` is in turn driven by underlying peer iterators that
/// determine the peer selection strategy, i.e. the order in which the peers
/// involved in the query should be contacted.
pub struct QueryPool<TInner> {
    next_id: usize,
    config: QueryConfig,
    queries: FnvHashMap<usize, Query<TInner>>,
}

impl<TInner> View for QueryPool<TInner> {
    type V = PoolView<TInner>;

    closed spec fn view(&self) -> PoolView<TInner> {
        PoolView {
            next_id: self.next_id,
            config: self.config,
            queries: self.queries@.map_values(|q: Query<TInner>| q@),
        }
    }
}

/// The observable states emitted by [`QueryPool::poll`].
pub enum QueryPoolState<'a, TInner> {
    /// The pool is idle, i.e. there are no queries to process.
    Idle,
    /// At least one query is waiting for results. `Some(request)` indicates
    /// that a new request is now being waited on.
    Waiting(Option<(&'a mut Query<TInner>, PeerId)>),
    /// A query has finished.
    Finished(Query<TInner>),
    /// A query has timed out.
    Timeout(Query<TInner>),
}

/// Where a poll stopped.
enum Stop {
    Finished(usize),
    Contact(usize, PeerId),
    Timeout(usize),
    Nowhere,
}

impl<TInner> QueryPool<TInner> {
    /// Creates a new `QueryPool` with the given configuration.
    pub fn new(config: QueryConfig) -> (r: QueryPool<TInner>)
        requires
            config.wf(),
        ensures
            r@ == (PoolView::<TInner> { next_id: 0, config, queries: Map::empty() }),
            r@.wf(),
    {
        let r = QueryPool { next_id: 0, config, queries: FnvHashMap::default() };
        assert(r@.queries =~= Map::empty());
        r
    }

    /// Gets a reference to the `QueryConfig` used by the pool.
    pub fn config(&self) -> (config: &QueryConfig)
        ensures
            *config == self@.config,
    {
        &self.config
    }

    /// Gets the current size of the pool, i.e. the number of running queries.
    pub fn size(&self) -> (n: usize)
        ensures
            n == self@.queries.len(),
    {
        assert(self@.queries.dom() =~= self.queries@.dom());
        map_len(&self.queries)
    }

    /// Adds a query to the pool that contacts a fixed set of peers.
    pub fn add_fixed(&mut self, peers: Vec<WeightedPeer>, inner: TInner) -> (id: QueryId)
        requires
            old(self)@.wf(),
            !old(self)@.queries.contains_key(old(self)@.next_id),
        ensures
            id.0 == old(self)@.next_id,
            final(self)@ == old(self)@.with_next_id().with_fixed(id, peers@, inner),
            final(self)@.wf(),
    {
        let id = self.next_query_id();
        self.continue_fixed(id, peers, inner);
        id
    }

    /// Continues an earlier query with a fixed set of peers, reusing the given
    /// query ID, which must be from a query that finished earlier.
    pub fn continue_fixed(&mut self, id: QueryId, peers: Vec<WeightedPeer>, inner: TInner)
        requires
            old(self)@.wf(),
            !old(self)@.queries.contains_key(id.0),
        ensures
            final(self)@ == old(self)@.with_fixed(id, peers@, inner),
            final(self)@.wf(),
    {
        let parallelism = self.config.replication_factor;
        let (swamp, weighted) = part_by_weight(peers);
        let swamp = into_preimages(swamp);
        let weighted = into_preimages(weighted);
        let weighted_iter = QueryPeerIter::Fixed(FixedPeersIter::new(weighted, parallelism));
        let swamp_iter = QueryPeerIter::Fixed(FixedPeersIter::new(swamp, parallelism));
        let query = Query::new(id, weighted_iter, swamp_iter, inner);
        map_insert(&mut self.queries, id.0, query);
        assert(self@ == old(self)@.with_fixed(id, peers@, inner));
    }

    /// Adds a query to the pool that iterates towards the closest peers to the
    /// target.
    pub fn add_iter_closest(
        &mut self,
        target: KeyBytes,
        peers: Vec<WeightedPeer>,
        inner: TInner,
    ) -> (id: QueryId)
        requires
            old(self)@.wf(),
        ensures
            id.0 == old(self)@.next_id,
            final(self)@ == old(self)@.with_next_id().with_closest(id, target, peers@, inner),
            final(self)@.wf(),
    {
        let id = self.next_query_id();
        self.continue_iter_closest(id, target, peers, inner);
        id
    }

    /// Adds a query to the pool that iterates towards the closest peers to the
    /// target, in place of any other query with the given ID.
    pub fn continue_iter_closest(
        &mut self,
        id: QueryId,
        target: KeyBytes,
        peers: Vec<WeightedPeer>,
        inner: TInner,
    )
        requires
            old(self)@.wf(),
        ensures
            final(self)@ == old(self)@.with_closest(id, target, peers@, inner),
            final(self)@.wf(),
    {
        let cfg = ClosestPeersIterConfig {
            num_results: self.config.replication_factor,
            ..ClosestPeersIterConfig::default()
        };
        let (swamp, weighted) = part_by_weight(peers);
        let weighted_iter = QueryPeerIter::Closest(
            ClosestPeersIter::with_config(cfg, target, weighted),
        );
        let swamp_iter = QueryPeerIter::Closest(ClosestPeersIter::with_config(cfg, target, swamp));
        let query = Query::new(id, weighted_iter, swamp_iter, inner);
        map_insert(&mut self.queries, id.0, query);
        assert(self@ == old(self)@.with_closest(id, target, peers@, inner));
        proof {
            known_keys_open_no_request(target, weighted_keys(peers@));
            known_keys_open_no_request(target, swamp_keys(peers@));
        }
    }

    /// Gives out the ID of a new query.
    fn next_query_id(&mut self) -> (id: QueryId)
        ensures
            id.0 == old(self)@.next_id,
            final(self)@ == old(self)@.with_next_id(),
    {
        let id = QueryId(self.next_id);
        self.next_id = self.next_id.wrapping_add(1);
        id
    }

    /// Returns a reference to a query with the given ID, if it is in the pool.
    pub fn get(&self, id: &QueryId) -> (r: Option<&Query<TInner>>)
        ensures
            match r {
                Some(query) => self@.queries.contains_key(id.0) && query@ == self@.queries[id.0],
                None => !self@.queries.contains_key(id.0),
            },
    {
        map_get(&self.queries, id.0)
    }

    /// Returns a mutable reference to a query with the given ID, if it is in
    /// the pool.
    pub fn get_mut(&mut self, id: &QueryId) -> (r: Option<&mut Query<TInner>>)
        ensures
            match r {
                Some(query) => {
                    &&& old(self)@.queries.contains_key(id.0)
                    &&& query@ == old(self)@.queries[id.0]
                    &&& final(self)@ == old(self)@.with_query(id.0, final(query)@)
                },
                None => !old(self)@.queries.contains_key(id.0) && final(self)@ == old(self)@,
            },
    {
        let r = map_get_mut(&mut self.queries, id.0);
        r
    }

    /// Returns the queries in the pool, in an order that is left open.
    pub fn iter(&self) -> (r: Vec<&Query<TInner>>)
        ensures
            exists|order: Seq<usize>|
                {
                    &&& #[trigger] is_order_of(order, self@.queries)
                    &&& r@.len() == order.len()
                    &&& forall|i: int|
                        0 <= i < order.len() ==> (#[trigger] r@[i])@ == self@.queries[order[i]]
                },
    {
        let keys = map_keys(&self.queries);
        assert(is_order_of(keys@, self@.queries));
        let mut r: Vec<&Query<TInner>> = Vec::new();
        let mut i: usize = 0;
        while i < keys.len()
            invariant
                i <= keys@.len(),
                r@.len() == i,
                is_order_of(keys@, self@.queries),
                forall|j: int| 0 <= j < i ==> (#[trigger] r@[j])@ == self@.queries[keys@[j]],
            decreases keys@.len() - i,
        {
            assert(keys@.contains(keys@[i as int]));
            let query = map_get(&self.queries, keys[i]).unwrap();
            r.push(query);
            i = i + 1;
        }
        r
    }

    /// Returns the queries in the pool for changing them, in an order that is
    /// left open.
    pub fn iter_mut(&mut self) -> (r: Vec<&mut Query<TInner>>)
        ensures
            final(self)@.next_id == old(self)@.next_id,
            final(self)@.config == old(self)@.config,
            exists|order: Seq<usize>|
                {
                    &&& #[trigger] is_order_of(order, old(self)@.queries)
                    &&& r@.len() == order.len()
                    &&& final(self)@.queries.dom() =~= old(self)@.queries.dom()
                    &&& forall|i: int|
                        #![trigger order[i]]
                        0 <= i < order.len() ==> r@[i]@ == old(self)@.queries[order[i]]
                            && final(self)@.queries[order[i]] == final(r@[i])@
                },
    {
        let ghost before = self.queries@;
        assert forall|order: Seq<usize>| #[trigger] is_order_of(order, before) implies is_order_of(
            order,
            self@.queries,
        ) by {}
        assert forall|order: Seq<usize>, i: int|
            is_order_of(order, before) && 0 <= i < order.len() implies before.contains_key(
            #[trigger] order[i],
        ) by {
            assert(order.contains(order[i]));
        }
        let r = map_values_mut(&mut self.queries);
        r
    }

    /// Polls the queries in the given order, up to the first that is not just
    /// waiting.
    fn advance(&mut self, order: &Vec<usize>, now: Instant) -> (stop: Stop)
        requires
            old(self)@.wf(),
            old(self)@.can_poll(),
            is_order_of(order@, old(self)@.queries),
        ensures
            final(self)@.wf(),
            match stop {
                Stop::Finished(k) => {
                    &&& final(self)@.queries.contains_key(k)
                    &&& old(self)@.poll(order@, now) == (
                        final(self)@.without_query(k),
                        PollOutcome::Finished(final(self)@.queries[k].ended(now)),
                    )
                },
                Stop::Timeout(k) => {
                    &&& final(self)@.queries.contains_key(k)
                    &&& old(self)@.poll(order@, now) == (
                        final(self)@.without_query(k),
                        PollOutcome::Timeout(final(self)@.queries[k].ended(now)),
                    )
                },
                Stop::Contact(k, peer) => {
                    &&& final(self)@.queries.contains_key(k)
                    &&& old(self)@.poll(order@, now) == (
                        final(self)@,
                        PollOutcome::<TInner>::Contact(QueryId(k), peer),
                    )
                },
                Stop::Nowhere => old(self)@.poll(order@, now) == final(self)@.poll(
                    Seq::empty(),
                    now,
                ),
            },
    {
        let mut i: usize = 0;
        assert(order@.skip(0) =~= order@);
        assert forall|j: int| 0 <= j < order@.len() implies self@.queries.contains_key(
            #[trigger] order@[j],
        ) by {
            assert(order@.contains(order@[j]));
        }
        while i < order.len()
            invariant
                i <= order@.len(),
                self@.wf(),
                order@.no_duplicates(),
                self@.poll(order@.skip(i as int), now) == old(self)@.poll(order@, now),
                forall|j: int|
                    i <= j < order@.len() ==> self@.queries.contains_key(#[trigger] order@[j])
                        && self@.queries[order@[j]].stats.requests < u32::MAX,
            decreases order@.len() - i,
        {
            let k = order[i];
            let ghost before = self@;
            assert(order@.skip(i as int)[0] == k);
            assert(order@.skip(i as int).skip(1) =~= order@.skip(i + 1));
            let timeout = self.config.timeout;
            let query = map_get_mut(&mut self.queries, k).unwrap();
            let first = query.ask(now);
            let state = query.next(now);
            if let PeersIterState::Waiting(Some(_)) = state {
                query.start(now);
            }
            assert(self@ == before.with_query(
                k,
                polled(before.queries[k], now, before.config.timeout).0,
            ));
            assert(self@.with_query(k, self@.queries[k]) == self@);
            assert(self@.without_query(k) == before.without_query(k));
            match state {
                PeersIterState::Finished => {
                    return Stop::Finished(k);
                },
                PeersIterState::Waiting(Some(peer)) => {
                    return Stop::Contact(k, peer);
                },
                _ => {
                    let elapsed = now.duration_since(first);
                    if elapsed.nanos >= timeout.nanos {
                        return Stop::Timeout(k);
                    }
                },
            }
            i = i + 1;
        }
        assert(order@.skip(i as int) =~= Seq::empty());
        Stop::Nowhere
    }

    /// Polls the pool to advance the queries, in the given order.
    pub fn poll_in_order(&mut self, order: &Vec<usize>, now: Instant) -> (r: QueryPoolState<
        '_,
        TInner,
    >)
        requires
            old(self)@.wf(),
            old(self)@.can_poll(),
            is_order_of(order@, old(self)@.queries),
        ensures
            ({
                let (after, outcome) = old(self)@.poll(order@, now);
                match (r, outcome) {
                    (QueryPoolState::Idle, PollOutcome::Idle) => final(self)@ == after
                        && final(self)@.wf(),
                    (QueryPoolState::Waiting(None), PollOutcome::Waiting) => final(self)@ == after
                        && final(self)@.wf(),
                    (
                        QueryPoolState::Waiting(Some((query, peer))),
                        PollOutcome::Contact(id, asked),
                    ) => {
                        &&& peer == asked
                        &&& query@ == after.queries[id.0]
                        &&& query@.wf()
                        &&& query@.id == id
                        &&& final(self)@ == after.with_query(id.0, final(query)@)
                        &&& final(query)@.wf() && final(query)@.id == id ==> final(self)@.wf()
                    },
                    (QueryPoolState::Finished(query), PollOutcome::Finished(gone)) => {
                        &&& query@ == gone
                        &&& query@.wf()
                        &&& final(self)@ == after
                        &&& final(self)@.wf()
                    },
                    (QueryPoolState::Timeout(query), PollOutcome::Timeout(gone)) => {
                        &&& query@ == gone
                        &&& query@.wf()
                        &&& final(self)@ == after
                        &&& final(self)@.wf()
                    },
                    _ => false,
                }
            }),
    {
        match self.advance(order, now) {
            Stop::Contact(k, peer) => {
                let query = map_get_mut(&mut self.queries, k).unwrap();
                QueryPoolState::Waiting(Some((query, peer)))
            },
            Stop::Finished(k) => {
                let ghost before = self@;
                let mut query = map_remove(&mut self.queries, k).unwrap();
                assert(self@ == before.without_query(k));
                query.end(now);
                QueryPoolState::Finished(query)
            },
            Stop::Timeout(k) => {
                let ghost before = self@;
                let mut query = map_remove(&mut self.queries, k).unwrap();
                assert(self@ == before.without_query(k));
                query.end(now);
                QueryPoolState::Timeout(query)
            },
            Stop::Nowhere => {
                assert(self@.queries.dom() =~= self.queries@.dom());
                if self.queries.is_empty() {
                    QueryPoolState::Idle
                } else {
                    QueryPoolState::Waiting(None)
                }
            },
        }
    }

    /// Polls the pool to advance the queries, in an order that is left open.
    pub fn poll(&mut self, now: Instant) -> (r: QueryPoolState<'_, TInner>)
        requires
            old(self)@.wf(),
            old(self)@.can_poll(),
        ensures
            r is Idle <==> old(self)@.queries.dom() =~= Set::empty(),
            exists|order: Seq<usize>|
                {
                    &&& #[trigger] is_order_of(order, old(self)@.queries)
                    &&& {
                        let (after, outcome) = old(self)@.poll(order, now);
                        match (r, outcome) {
                            (QueryPoolState::Idle, PollOutcome::Idle) => {
                                &&& final(self)@ == after
                                &&& final(self)@.wf()
                            },
                            (QueryPoolState::Waiting(None), PollOutcome::Waiting) => {
                                &&& final(self)@ == after
                                &&& final(self)@.wf()
                            },
                            (
                                QueryPoolState::Waiting(Some((query, peer))),
                                PollOutcome::Contact(id, asked),
                            ) => {
                                &&& peer == asked
                                &&& query@ == after.queries[id.0]
                                &&& query@.wf()
                                &&& query@.id == id
                                &&& final(self)@ == after.with_query(id.0, final(query)@)
                                &&& final(query)@.wf() && final(query)@.id == id
                                    ==> final(self)@.wf()
                            },
                            (QueryPoolState::Finished(query), PollOutcome::Finished(gone)) => {
                                &&& query@ == gone
                                &&& query@.wf()
                                &&& final(self)@ == after
                                &&& final(self)@.wf()
                            },
                            (QueryPoolState::Timeout(query), PollOutcome::Timeout(gone)) => {
                                &&& query@ == gone
                                &&& query@.wf()
                                &&& final(self)@ == after
                                &&& final(self)@.wf()
                            },
                            _ => false,
                        }
                    }
                },
    {
        let order = map_keys(&self.queries);
        assert(is_order_of(order@, self@.queries));
        proof {
            idle_without_queries(self@, order@, now);
        }
        self.poll_in_order(&order, now)
    }
}

} // verus!
