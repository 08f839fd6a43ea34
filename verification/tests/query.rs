use weighted_kad::kbucket::key::{Key, KeyBytes};
use weighted_kad::peer::PeerId;
use weighted_kad::query::{
    Query, QueryConfig, QueryId, QueryPool, QueryPoolState, QueryStats, WeightedPeer,
};
use weighted_kad::time::{Clock, Duration, Instant};

const TARGET: KeyBytes = KeyBytes { hi: 0, lo: 0 };
const START: Instant = Instant { nanos: 500 };

fn peer(n: u8) -> PeerId {
    let mut digest = [0; 64];
    digest[0] = n;
    PeerId { code: 0x12, size: 64, digest }
}

fn weighted(n: u8, weight: u32) -> WeightedPeer {
    let bytes = KeyBytes { hi: 0, lo: n as u128 };
    WeightedPeer { peer_id: Key { preimage: peer(n), bytes }, weight }
}

fn pool(replication_factor: usize) -> QueryPool<&'static str> {
    QueryPool::new(QueryConfig { replication_factor, ..QueryConfig::default() })
}

/// Polls a pool that asks for a peer, and tells the query and the peer.
fn contact(pool: &mut QueryPool<&'static str>, now: Instant) -> (QueryId, PeerId) {
    match pool.poll(now) {
        QueryPoolState::Waiting(Some((query, peer))) => (query.id(), peer),
        _ => panic!("no peer to contact"),
    }
}

fn is_waiting(pool: &mut QueryPool<&'static str>, now: Instant) -> bool {
    matches!(pool.poll(now), QueryPoolState::Waiting(None))
}

fn finished(pool: &mut QueryPool<&'static str>, now: Instant) -> Query<&'static str> {
    match pool.poll(now) {
        QueryPoolState::Finished(query) => query,
        _ => panic!("not finished"),
    }
}

#[test]
fn default_configuration_of_queries() {
    let config = QueryConfig::default();
    assert_eq!(config.timeout, Duration::from_secs(60));
    assert_eq!(config.replication_factor, 20);
    let pool: QueryPool<()> = QueryPool::new(config);
    assert_eq!(pool.config().replication_factor, 20);
}

#[test]
fn pool_without_queries_is_idle() {
    let mut pool = pool(1);
    assert_eq!(pool.size(), 0);
    assert!(matches!(pool.poll(START), QueryPoolState::Idle));
    assert!(matches!(pool.poll_in_order(&vec![], START), QueryPoolState::Idle));
    assert!(pool.get(&QueryId(0)).is_none());
    assert!(pool.get_mut(&QueryId(0)).is_none());
    assert!(pool.iter().is_empty());
    assert!(pool.iter_mut().is_empty());
}

#[test]
fn weighted_peers_are_contacted_first() {
    let mut pool = pool(2);
    let id = pool.add_fixed(
        vec![weighted(1, 0), weighted(2, 5), weighted(3, 0), weighted(4, 1)],
        "inner",
    );
    assert_eq!(contact(&mut pool, START), (id, peer(2)));
    assert_eq!(contact(&mut pool, START), (id, peer(4)));
    assert_eq!(contact(&mut pool, START), (id, peer(1)));
    assert_eq!(contact(&mut pool, START), (id, peer(3)));
    assert!(is_waiting(&mut pool, START));

    let query = pool.get_mut(&id).expect("in the pool");
    assert!(query.is_waiting(&peer(1)));
    assert!(query.is_waiting(&peer(2)));
    assert!(!query.is_waiting(&peer(9)));
    query.on_success(&peer(3), vec![]);
    query.on_success(&peer(4), vec![weighted(9, 3)]);
    query.on_failure(&peer(1));
    query.on_failure(&peer(1));
    query.on_failure(&peer(9));
    assert_eq!(query.stats().num_requests(), 4);
    assert_eq!(query.stats().num_successes(), 2);
    assert_eq!(query.stats().num_failures(), 1);
    assert_eq!(query.stats().num_pending(), 1);
    query.on_success(&peer(2), vec![]);
    assert!(!query.is_finished());

    let end = Instant { nanos: 800 };
    let query = finished(&mut pool, end);
    assert!(query.is_finished());
    assert_eq!(query.id(), id);
    assert_eq!(pool.size(), 0);
    assert_eq!(query.stats().duration_at(Instant { nanos: 9_999 }), Some(Duration { nanos: 300 }));
    let result = query.into_result();
    assert_eq!(result.inner, "inner");
    assert_eq!(result.peers, vec![peer(2), peer(4), peer(3)]);
    assert_eq!(result.stats.num_pending(), 0);
}

#[test]
fn stopped_query_is_reported() {
    let mut pool = pool(1);
    let id = pool.add_fixed(vec![weighted(1, 1), weighted(2, 1)], "stopped");
    assert_eq!(contact(&mut pool, START), (id, peer(1)));
    pool.get_mut(&id).expect("in the pool").finish();
    let query = finished(&mut pool, START);
    assert_eq!(query.stats().num_pending(), 1);
    assert_eq!(query.into_result().peers, vec![]);
}

#[test]
fn queries_get_successive_ids() {
    let mut pool = pool(1);
    assert_eq!(pool.add_fixed(vec![weighted(1, 1)], "a"), QueryId(0));
    assert_eq!(pool.add_iter_closest(TARGET, vec![weighted(2, 0)], "b"), QueryId(1));
    assert_eq!(pool.add_fixed(vec![], "c"), QueryId(2));
    assert_eq!(pool.size(), 3);
    assert_eq!(pool.get(&QueryId(1)).map(|q| q.inner), Some("b"));
    assert_eq!(pool.get(&QueryId(1)).map(|q| q.id()), Some(QueryId(1)));
    let mut inner: Vec<&'static str> = pool.iter().iter().map(|q| q.inner).collect();
    inner.sort();
    assert_eq!(inner, vec!["a", "b", "c"]);
    for query in pool.iter_mut() {
        query.inner = "changed";
    }
    assert!(pool.iter().iter().all(|q| q.inner == "changed"));
}

#[test]
fn polls_follow_the_order() {
    let mut pool = pool(1);
    pool.add_fixed(vec![weighted(1, 1)], "a");
    pool.add_fixed(vec![weighted(2, 1)], "b");
    match pool.poll_in_order(&vec![1, 0], START) {
        QueryPoolState::Waiting(Some((query, p))) => {
            assert_eq!((query.id(), p), (QueryId(1), peer(2)));
        }
        _ => panic!("no peer to contact"),
    }
    assert!(pool.get(&QueryId(0)).expect("in the pool").stats().start.is_none());
    match pool.poll_in_order(&vec![1, 0], Instant { nanos: 700 }) {
        QueryPoolState::Waiting(Some((query, p))) => {
            assert_eq!((query.id(), p), (QueryId(0), peer(1)));
        }
        _ => panic!("no peer to contact"),
    }
    let started = |id: usize| pool.get(&QueryId(id)).expect("in the pool").stats().start;
    assert_eq!(started(0), Some(Instant { nanos: 700 }));
    assert_eq!(started(1), Some(START));
}

#[test]
fn earlier_query_is_continued() {
    let mut pool = pool(1);
    let id = pool.add_fixed(vec![], "first phase");
    let query = finished(&mut pool, START);
    assert_eq!(query.id(), id);
    pool.continue_fixed(id, vec![weighted(1, 1)], "second phase");
    assert_eq!(pool.get(&id).map(|q| *q.inner()), Some("second phase"));
    *pool.get_mut(&id).expect("in the pool").inner_mut() = "still second phase";
    assert_eq!(pool.get(&id).map(|q| q.inner), Some("still second phase"));
    pool.continue_iter_closest(id, TARGET, vec![weighted(2, 0)], "third phase");
    assert_eq!(pool.size(), 1);
    assert_eq!(contact(&mut pool, START), (id, peer(2)));
    // The number of a query that left the pool is not given out again.
    pool.get_mut(&id).expect("in the pool").finish();
    assert_eq!(finished(&mut pool, START).id(), id);
    assert_eq!(pool.add_fixed(vec![], "other"), QueryId(1));
}

#[test]
fn slow_query_times_out() {
    let mut pool = pool(1);
    let id = pool.add_fixed(vec![weighted(1, 1)], "slow");
    assert_eq!(contact(&mut pool, START), (id, peer(1)));
    assert!(is_waiting(&mut pool, Instant { nanos: START.nanos + 59_999_999_999 }));
    let end = Instant { nanos: START.nanos + 60_000_000_000 };
    match pool.poll(end) {
        QueryPoolState::Timeout(query) => {
            assert_eq!(query.id(), id);
            assert_eq!(query.stats().end, Some(end));
            assert_eq!(query.stats().duration_at(START), Some(Duration::from_secs(60)));
        }
        _ => panic!("not timed out"),
    }
    assert!(matches!(pool.poll(end), QueryPoolState::Idle));
}

#[test]
fn query_without_contact_has_no_duration() {
    let mut pool = pool(1);
    pool.add_fixed(vec![], "nobody to contact");
    let query = finished(&mut pool, START);
    assert_eq!(query.stats().start, None);
    assert_eq!(query.stats().end, Some(START));
    assert_eq!(query.stats().duration_at(Instant { nanos: 9_999 }), None);
    assert_eq!(query.stats().duration(&Clock::start()), None);
}

#[test]
fn duration_runs_from_first_contact() {
    let mut pool = pool(1);
    let id = pool.add_fixed(vec![weighted(1, 1), weighted(2, 1)], "two peers");
    assert_eq!(pool.get(&id).expect("in the pool").stats().start, None);
    assert_eq!(contact(&mut pool, START), (id, peer(1)));
    pool.get_mut(&id).expect("in the pool").on_success(&peer(1), vec![]);
    assert_eq!(contact(&mut pool, Instant { nanos: 600 }), (id, peer(2)));
    let query = pool.get_mut(&id).expect("in the pool");
    assert!(query.is_waiting(&peer(2)));
    assert_eq!(query.stats().start, Some(START));
    query.on_failure(&peer(2));
    let query = finished(&mut pool, Instant { nanos: 750 });
    assert_eq!(query.stats().duration_at(START), Some(Duration { nanos: 250 }));
}

#[test]
fn closest_query_learns_of_peers() {
    let mut pool = pool(3);
    let id = pool.add_iter_closest(TARGET, vec![weighted(8, 2), weighted(9, 0)], "closest");
    assert_eq!(contact(&mut pool, START), (id, peer(8)));
    assert_eq!(contact(&mut pool, START), (id, peer(9)));
    let query = pool.get_mut(&id).expect("in the pool");
    query.on_success(&peer(8), vec![weighted(3, 0), weighted(5, 7), weighted(1, 7)]);
    // The weighted ones go to the iterator that expected the answer. The other
    // iterator did not ask the peer, so it takes none.
    assert_eq!(contact(&mut pool, START), (id, peer(1)));
    assert_eq!(contact(&mut pool, START), (id, peer(5)));
    assert!(is_waiting(&mut pool, START));
    let query = pool.get_mut(&id).expect("in the pool");
    for n in [1, 5, 9] {
        query.on_success(&peer(n), vec![]);
    }
    let result = finished(&mut pool, START).into_result();
    assert_eq!(result.peers, vec![peer(1), peer(5), peer(8), peer(9)]);
    assert_eq!(result.stats.num_requests(), 4);
}

#[test]
fn closest_query_gives_replication_factor_results() {
    let mut pool = pool(1);
    let id = pool.add_iter_closest(TARGET, vec![weighted(1, 2), weighted(2, 2)], "one");
    assert_eq!(contact(&mut pool, START), (id, peer(1)));
    pool.get_mut(&id).expect("in the pool").on_success(&peer(1), vec![]);
    let result = finished(&mut pool, START).into_result();
    assert_eq!(result.peers, vec![peer(1)]);
}

#[test]
fn finished_query_is_reported_among_others() {
    let mut pool = pool(1);
    for n in 1..6 {
        pool.add_fixed(vec![weighted(n, 1)], "busy");
    }
    let id = pool.add_fixed(vec![weighted(9, 1)], "stopped");
    pool.get_mut(&id).expect("in the pool").finish();
    let mut polls = 0;
    loop {
        polls += 1;
        match pool.poll(START) {
            QueryPoolState::Finished(query) => {
                assert_eq!(query.id(), id);
                break;
            }
            QueryPoolState::Waiting(Some(_)) => {}
            _ => panic!("passed over"),
        }
    }
    assert!(polls <= 6);
    assert_eq!(pool.size(), 5);
}

fn stats(requests: u32, success: u32, failure: u32, start: u128, end: Option<u128>) -> QueryStats {
    QueryStats {
        requests,
        success,
        failure,
        start: Some(Instant { nanos: start }),
        end: end.map(|nanos| Instant { nanos }),
    }
}

#[test]
fn merged_stats_add_up() {
    let a = stats(5, 2, 1, 100, Some(300));
    let b = stats(7, 3, 3, 40, Some(200));
    let merged = a.clone().merge(b.clone());
    assert_eq!(merged, stats(12, 5, 4, 40, Some(300)));
    assert_eq!(merged.num_pending(), 3);
    assert_eq!(b.clone().merge(a.clone()), merged);
    assert_eq!(a.clone().merge(QueryStats::empty()), a);
    assert_eq!(QueryStats::empty().merge(a.clone()), a);
    let running = stats(1, 0, 0, 250, None);
    let left = a.clone().merge(b.clone()).merge(running.clone());
    let right = a.clone().merge(b.merge(running.clone()));
    assert_eq!(left, right);
    assert_eq!(a.merge(running).end, Some(Instant { nanos: 300 }));
}

#[test]
fn duration_runs_from_start_to_end() {
    let empty = QueryStats::empty();
    assert_eq!(empty.num_requests(), 0);
    assert_eq!(empty.duration_at(START), None);
    let running = stats(1, 0, 0, 100, None);
    assert_eq!(running.duration_at(Instant { nanos: 130 }), Some(Duration { nanos: 30 }));
    assert_eq!(running.duration_at(Instant { nanos: 10 }), Some(Duration { nanos: 0 }));
    let clock = Clock::start();
    assert_eq!(empty.duration(&clock), None);
    assert_eq!(stats(1, 0, 0, 100, Some(110)).duration(&clock), Some(Duration { nanos: 10 }));
    assert!(stats(1, 0, 0, 0, None).duration(&clock).is_some());
}
