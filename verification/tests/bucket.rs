use weighted_kad::kbucket::bucket::Bucket;
use weighted_kad::kbucket::bucketable::{
    AppliedPending, Bucketable, InsertResult, Node, NodeStatus, PendingNode, Position,
};
use weighted_kad::kbucket::key::{Key, KeyBytes};
use weighted_kad::time::{Clock, Duration, Instant};

use NodeStatus::{Connected, Disconnected};

const NOW: Instant = Instant { nanos: 1_000 };

fn key(lo: u128) -> KeyBytes {
    KeyBytes { hi: 0, lo }
}

fn node(lo: u128) -> Node<KeyBytes, u32> {
    Node { key: key(lo), value: lo as u32 }
}

fn keys(bucket: &Bucket<KeyBytes, u32>) -> Vec<(u128, NodeStatus)> {
    bucket.iter().collect().iter().map(|(n, s)| (n.key.lo, *s)).collect()
}

/// A full bucket with room for three nodes, two of which are disconnected.
fn full_bucket() -> Bucket<KeyBytes, u32> {
    let mut bucket = Bucket::new(3, Duration { nanos: 50 });
    assert_eq!(bucket.insert(node(1), Disconnected, NOW), InsertResult::Inserted);
    assert_eq!(bucket.insert(node(2), Connected, NOW), InsertResult::Inserted);
    assert_eq!(bucket.insert(node(3), Disconnected, NOW), InsertResult::Inserted);
    bucket
}

#[test]
fn disconnected_nodes_come_first() {
    let bucket = full_bucket();
    assert_eq!(keys(&bucket), vec![(1, Disconnected), (3, Disconnected), (2, Connected)]);
    assert_eq!(bucket.num_entries(), 3);
    assert_eq!(bucket.num_connected(), 1);
    assert_eq!(bucket.num_disconnected(), 2);
    assert_eq!(bucket.status(Position(0)), Disconnected);
    assert_eq!(bucket.status(Position(2)), Connected);
    assert!(!bucket.is_connected(Position(1)));
    assert!(bucket.is_connected(Position(2)));
    assert!(!bucket.is_connected(Position(3)));
}

#[test]
fn empty_bucket() {
    let bucket: Bucket<KeyBytes, u32> = Bucket::new(1, Duration { nanos: 0 });
    assert_eq!(bucket.num_entries(), 0);
    assert_eq!(bucket.num_connected(), 0);
    assert_eq!(bucket.num_disconnected(), 0);
    assert!(bucket.pending().is_none());
    assert!(bucket.iter().is_empty());
    assert!(bucket.position(&key(0)).is_none());
}

#[test]
fn nodes_are_found_by_key() {
    let mut bucket = full_bucket();
    assert_eq!(bucket.position(&key(3)), Some(Position(1)));
    assert_eq!(bucket.position(&key(4)), None);
    assert_eq!(bucket.get(&key(2)), Some(&node(2)));
    assert_eq!(bucket.get(&key(4)), None);
    assert!(bucket.get_mut(&key(4)).is_none());
    bucket.get_mut(&key(2)).expect("in the bucket").value = 22;
    assert_eq!(bucket.get(&key(2)).map(|n| n.value), Some(22));
}

#[test]
fn full_bucket_lets_connected_node_wait() {
    let mut bucket = full_bucket();
    assert_eq!(bucket.insert(node(4), Disconnected, NOW), InsertResult::Full);
    let waiting = bucket.insert(node(4), Connected, NOW);
    assert_eq!(waiting, InsertResult::Pending { disconnected: key(1) });
    assert_eq!(bucket.insert(node(5), Connected, NOW), InsertResult::Full);
    assert_eq!(bucket.num_entries(), 3);
    assert_eq!(bucket.pending().map(|p| *p.key()), Some(key(4)));
    assert_eq!(bucket.pending().map(|p| p.status()), Some(Connected));
    assert!(bucket.as_pending(&key(4)).is_some());
    assert!(bucket.as_pending(&key(1)).is_none());
}

#[test]
fn bucket_full_of_connected_nodes() {
    let mut bucket = Bucket::new(1, Duration { nanos: 50 });
    assert_eq!(bucket.insert(node(1), Connected, NOW), InsertResult::Inserted);
    assert_eq!(bucket.insert(node(2), Connected, NOW), InsertResult::Full);
    assert!(bucket.pending().is_none());
}

#[test]
fn waiting_node_replaces_first_one() {
    let mut bucket = full_bucket();
    assert!(bucket.apply_pending(NOW).is_none());
    let _ = bucket.insert(node(4), Connected, NOW);
    assert!(bucket.apply_pending(Instant { nanos: 1_049 }).is_none());
    assert!(bucket.pending().is_some());
    let applied = bucket.apply_pending(Instant { nanos: 1_050 });
    assert_eq!(applied, Some(AppliedPending { inserted: node(4), evicted: Some(node(1)) }));
    assert_eq!(keys(&bucket), vec![(3, Disconnected), (2, Connected), (4, Connected)]);
    assert!(bucket.pending().is_none());
}

#[test]
fn reconnected_node_stays() {
    let mut bucket = full_bucket();
    let _ = bucket.insert(node(4), Connected, NOW);
    bucket.update(&key(1), Connected);
    assert!(bucket.pending().is_none());
    assert!(bucket.apply_pending(Instant { nanos: 9_999 }).is_none());
    assert_eq!(keys(&bucket), vec![(3, Disconnected), (2, Connected), (1, Connected)]);
}

#[test]
fn updates_of_others_keep_node_waiting() {
    let mut bucket = full_bucket();
    let _ = bucket.insert(node(4), Connected, NOW);
    bucket.update(&key(2), Disconnected);
    bucket.update(&key(99), Connected);
    assert_eq!(keys(&bucket), vec![(1, Disconnected), (3, Disconnected), (2, Disconnected)]);
    let applied = bucket.apply_pending(Instant { nanos: 1_050 }).expect("its time has come");
    assert_eq!(applied.evicted, Some(node(1)));
    assert_eq!(keys(&bucket), vec![(3, Disconnected), (2, Disconnected), (4, Connected)]);
}

#[test]
fn waiting_node_can_be_disconnected() {
    let mut bucket = full_bucket();
    let _ = bucket.insert(node(4), Connected, NOW);
    bucket.update(&key(3), Connected);
    bucket.pending_mut().expect("waiting").set_ready_at(Instant { nanos: 0 });
    bucket.update_pending(Disconnected);
    assert_eq!(bucket.pending().map(|p| p.status()), Some(Disconnected));
    let applied = bucket.apply_pending(NOW).expect("its time has come");
    assert_eq!(applied.inserted, node(4));
    assert_eq!(keys(&bucket), vec![(4, Disconnected), (2, Connected), (3, Connected)]);
}

#[test]
fn pending_node_is_ready_in_time() {
    let mut pending =
        PendingNode { node: node(7), status: Connected, replace: Instant { nanos: 100 } };
    assert!(!pending.is_ready_at(Instant { nanos: 99 }));
    assert!(pending.is_ready_at(Instant { nanos: 100 }));
    *pending.value_mut() = 70;
    assert_eq!(pending.node.value, 70);
    let clock = Clock::start();
    pending.set_ready_at(Instant { nanos: 0 });
    assert!(pending.is_ready(&clock));
    pending.set_ready_at(Instant { nanos: u128::MAX });
    assert!(!pending.is_ready(&clock));
}

#[test]
fn clock_moves_on() {
    let clock = Clock::start();
    let first = clock.now();
    let mut last = clock.now();
    while last == first {
        last = clock.now();
    }
    assert!(last.nanos > first.nanos);
    assert!(last.duration_since(first).nanos > 0);
    assert_eq!(first.duration_since(last), Duration { nanos: 0 });
}

#[test]
fn clock_counts_from_its_start() {
    let origin = std::time::Instant::now();
    let clock = Clock::started_at(origin);
    assert_eq!(clock.at(&origin), Instant { nanos: 0 });
    let later = origin + std::time::Duration::from_nanos(1_234_567_890_123);
    assert_eq!(clock.at(&later), Instant { nanos: 1_234_567_890_123 });
    assert_eq!(Clock::started_at(later).at(&origin), Instant { nanos: 0 });
}

#[test]
fn instants_and_spans() {
    let t = Instant { nanos: 7 };
    assert_eq!(Duration::from_secs(2), Duration { nanos: 2_000_000_000 });
    assert_eq!(t.after(Duration { nanos: 5 }), Instant { nanos: 12 });
    assert_eq!(t.after(Duration { nanos: u128::MAX }), Instant { nanos: u128::MAX });
    assert_eq!(t.earlier(Instant { nanos: 3 }), Instant { nanos: 3 });
    assert_eq!(t.later(Instant { nanos: 3 }), t);
}

#[test]
fn key_gives_back_its_preimage() {
    let key = Key { preimage: "peer", bytes: key(3) };
    assert_eq!(key.into_preimage(), "peer");
}
