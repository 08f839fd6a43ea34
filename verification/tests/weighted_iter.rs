use weighted_kad::kbucket::bucketable::{Bucketable, InsertResult, Node, NodeStatus};
use weighted_kad::kbucket::closest::{BucketIndex, ClosestBucketsIter};
use weighted_kad::kbucket::key::{Distance, KeyBytes};
use weighted_kad::kbucket::weighted_iter::WeightedIter;
use weighted_kad::kbucket::KBucketsTable;
use weighted_kad::time::{Duration, Instant};

type Table = KBucketsTable<KeyBytes, &'static str>;

const LOCAL: KeyBytes = KeyBytes { hi: 0, lo: 0 };

fn key(lo: u128) -> KeyBytes {
    KeyBytes { hi: 0, lo }
}

fn table() -> Table {
    KBucketsTable::new(20, Duration::from_secs(60))
}

/// Enters a node in the bucket that covers its distance to the local key.
fn enter(table: &mut Table, weighted: bool, key: KeyBytes, name: &'static str) {
    let index = BucketIndex::new(&LOCAL.distance(&key)).expect("not the local key");
    let slot = table.bucket_mut(index).expect("one slot for each bit");
    let bucket = if weighted { &mut slot.weighted } else { &mut slot.swamp };
    let node = Node { key, value: name };
    let result = bucket.insert(node, NodeStatus::Connected, Instant { nanos: 0 });
    assert_eq!(result, InsertResult::Inserted);
}

/// Walks on until the walk ends.
fn names(walk: &mut WeightedIter<'_, KeyBytes, &'static str>) -> Vec<&'static str> {
    let mut names = Vec::new();
    while let Some((node, _)) = walk.next() {
        names.push(node.value);
    }
    names
}

#[test]
fn correct_order() {
    let target = key(1 << 10);
    let mut table = table();
    // The quota of the bucket of the target is four, so it is not met here.
    enter(&mut table, true, key((1 << 10) + 7), "far");
    enter(&mut table, true, key((1 << 10) + 1), "near");
    // All other buckets come behind, and those of the swamp at last.
    enter(&mut table, true, key(1 << 9), "other bucket");
    enter(&mut table, false, key((1 << 9) + 1), "swamp of other bucket");
    enter(&mut table, false, key((1 << 10) + 5), "far swamp");
    enter(&mut table, false, key((1 << 10) + 4), "near swamp");

    let mut walk = WeightedIter::new(&table, LOCAL.distance(&target), &target);
    let expected = vec![
        "near",
        "far",
        "other bucket",
        "near swamp",
        "far swamp",
        "swamp of other bucket",
    ];
    assert_eq!(names(&mut walk), expected);
    assert!(walk.next().is_none());
    assert!(walk.next().is_none());
}

#[test]
fn quota_met_takes_from_swamp() {
    let target = key(1 << 10);
    let mut table = table();
    for (i, name) in ["w0", "w1", "w2", "w3", "w4", "w5"].iter().enumerate() {
        enter(&mut table, true, key((1 << 10) + i as u128), name);
    }
    enter(&mut table, false, key((1 << 10) + 30), "s0");
    enter(&mut table, false, key(3), "s1");

    let mut walk = WeightedIter::new(&table, LOCAL.distance(&target), &target);
    // Four of the first bucket, then a single one of the swamp before each further
    // one of the bucket.
    let expected = vec!["w0", "w1", "w2", "w3", "s0", "w4", "s1", "w5"];
    assert_eq!(names(&mut walk), expected);
    assert!(walk.next().is_none());
}

#[test]
fn walk_goes_back_to_weighted() {
    let target = key(48);
    let mut table = table();
    for (i, name) in ["w1", "w2", "w3", "w4", "w5"].iter().enumerate() {
        enter(&mut table, true, key(48 + i as u128), name);
    }
    enter(&mut table, false, key(56), "s1");
    enter(&mut table, false, key(57), "s2");
    let mut walk = WeightedIter::new(&table, Distance { hi: 0, lo: 48 }, &target);
    let expected = vec!["w1", "w2", "w3", "w4", "s1", "w5", "s2"];
    assert_eq!(names(&mut walk), expected);
}

#[test]
fn weighted_is_drained_without_swamp() {
    let target = key(48);
    let mut table = table();
    for (i, name) in ["w1", "w2", "w3", "w4", "w5"].iter().enumerate() {
        enter(&mut table, true, key(48 + i as u128), name);
    }
    let mut walk = WeightedIter::new(&table, Distance { hi: 0, lo: 48 }, &target);
    assert_eq!(names(&mut walk), vec!["w1", "w2", "w3", "w4", "w5"]);
    assert!(walk.next().is_none());
}

#[test]
fn bucket_without_quota_gives_one_before_the_swamp() {
    let target = key(1 << 10);
    let mut table = table();
    enter(&mut table, true, key(4), "a");
    enter(&mut table, true, key(5), "b");
    enter(&mut table, false, key(1), "s");
    let mut walk = WeightedIter::new(&table, LOCAL.distance(&target), &target);
    assert_eq!(names(&mut walk), vec!["a", "s", "b"]);
}

#[test]
fn quota_of_second_bucket() {
    let target = key(1 << 10);
    let mut table = table();
    enter(&mut table, true, key(1 << 9), "a");
    enter(&mut table, true, key((1 << 9) + 1), "b");
    enter(&mut table, true, key((1 << 9) + 2), "c");
    enter(&mut table, false, key(1), "s");
    let mut walk = WeightedIter::new(&table, LOCAL.distance(&target), &target);
    assert_eq!(names(&mut walk), vec!["a", "b", "s", "c"]);
}

#[test]
fn empty_table_has_no_nodes() {
    let table = table();
    let target = key(77);
    let mut walk = WeightedIter::new(&table, LOCAL.distance(&target), &target);
    assert!(walk.next().is_none());
    assert!(walk.next().is_none());
}

#[test]
fn distant_weighted_bucket_has_no_quota() {
    let target = key(1);
    let mut table = table();
    enter(&mut table, true, KeyBytes { hi: 1 << 127, lo: 0 }, "w");
    enter(&mut table, true, KeyBytes { hi: 1 << 127, lo: 2 }, "v");
    enter(&mut table, false, key(2), "s");
    let mut walk = WeightedIter::new(&table, LOCAL.distance(&target), &target);
    assert_eq!(walk.num_weighted(BucketIndex(255)), 0);
    assert_eq!(names(&mut walk), vec!["w", "s", "v"]);
}

#[test]
fn num_weighted_halves() {
    let table = table();
    let target = key(1 << 10);
    let walk = WeightedIter::new(&table, LOCAL.distance(&target), &target);
    let quotas: Vec<usize> =
        (6..15).map(|i| walk.num_weighted(BucketIndex(i))).collect();
    assert_eq!(quotas, vec![0, 0, 1, 2, 4, 2, 1, 0, 0]);
}

#[test]
fn local_key_as_target_starts_at_first_bucket() {
    let mut table = table();
    enter(&mut table, true, key(1), "w");
    let walk = WeightedIter::new(&table, LOCAL.distance(&LOCAL), &LOCAL);
    assert_eq!(walk.num_weighted(BucketIndex(0)), 4);
    let mut walk = walk;
    assert_eq!(names(&mut walk), vec!["w"]);
}

#[test]
fn buckets_one_by_one() {
    let target = key(1 << 10);
    let mut table = table();
    enter(&mut table, true, key((1 << 10) + 2), "w");
    enter(&mut table, false, key((1 << 10) + 3), "s");
    let mut walk = WeightedIter::new(&table, LOCAL.distance(&target), &target);
    // The first bucket is entered where none was entered so far, and no other.
    assert_eq!(walk.next_weighted().map(|(n, _)| n.value), Some("w"));
    assert!(walk.next_weighted().is_none());
    assert!(walk.next_weighted().is_none());
    assert_eq!(walk.next_swamp().map(|(n, s)| (n.value, s)), Some(("s", NodeStatus::Connected)));
    assert!(walk.next_swamp().is_none());
    let mut weighted = 1;
    while let Some((_, iter)) = walk.next_weighted_bucket() {
        assert!(iter.next().is_none());
        weighted += 1;
    }
    let mut swamp = 1;
    while let Some(iter) = walk.next_swamp_bucket() {
        assert!(iter.next().is_none());
        swamp += 1;
    }
    assert_eq!((weighted, swamp), (256, 256));
}

#[test]
fn sort_is_stable() {
    let table = table();
    let target = key(8);
    let walk = WeightedIter::new(&table, LOCAL.distance(&target), &target);
    let nodes: Vec<Node<KeyBytes, &'static str>> = vec![
        Node { key: key(1), value: "far" },
        Node { key: key(9), value: "near, first" },
        Node { key: key(8), value: "here" },
        Node { key: key(9), value: "near, second" },
    ];
    let items = nodes.iter().map(|n| (n, NodeStatus::Disconnected)).collect();
    let sorted: Vec<&'static str> =
        walk.sort_bucket(items).collect().iter().map(|(n, _)| n.value).collect();
    assert_eq!(sorted, vec!["here", "near, first", "near, second", "far"]);
}

#[test]
fn every_bucket_is_visited_once() {
    let distance = Distance { hi: 5, lo: 0b1010 };
    let mut buckets = ClosestBucketsIter::new(distance);
    let mut seen = Vec::new();
    while let Some(i) = buckets.next() {
        seen.push(i.get());
    }
    // The set digits from the highest down, then the others from the lowest up.
    assert_eq!(seen[..6], [130, 128, 3, 1, 0, 2]);
    assert_eq!(seen[6], 4);
    let mut all = seen.clone();
    all.sort();
    assert_eq!(all, (0..256).collect::<Vec<usize>>());
    assert!(buckets.next().is_none());
}

#[test]
fn bucket_index_is_highest_digit() {
    assert!(BucketIndex::new(&Distance { hi: 0, lo: 0 }).is_none());
    assert_eq!(BucketIndex::new(&Distance { hi: 0, lo: 1 }).map(|i| i.get()), Some(0));
    assert_eq!(BucketIndex::new(&Distance { hi: 1, lo: 9 }).map(|i| i.get()), Some(128));
    assert_eq!(BucketIndex::new(&Distance { hi: 1 << 127, lo: 0 }).map(|i| i.get()), Some(255));
}

#[test]
fn distance_is_symmetric() {
    let a = KeyBytes { hi: 12, lo: 0b1100 };
    let b = KeyBytes { hi: 10, lo: 0b1010 };
    assert_eq!(a.distance(&b), Distance { hi: 6, lo: 0b0110 });
    assert_eq!(a.distance(&b), b.distance(&a));
    assert_eq!(a.distance(&a), Distance { hi: 0, lo: 0 });
    assert!(Distance { hi: 0, lo: 9 }.at_most(&Distance { hi: 1, lo: 0 }));
    assert!(!Distance { hi: 1, lo: 0 }.at_most(&Distance { hi: 0, lo: 9 }));
}
