use weighted_kad::kbucket::key::{Key, KeyBytes};
use weighted_kad::peer::PeerId;
use weighted_kad::query::peers::closest::{ClosestPeersIter, ClosestPeersIterConfig};
use weighted_kad::query::peers::fixed::FixedPeersIter;
use weighted_kad::query::peers::PeersIterState;
use weighted_kad::time::{Duration, Instant};

const TARGET: KeyBytes = KeyBytes { hi: 0, lo: 0 };
const START: Instant = Instant { nanos: 0 };

fn peer(n: u8) -> PeerId {
    let mut digest = [0; 64];
    digest[63] = n;
    PeerId { code: 0x12, size: 64, digest }
}

/// The key of a peer whose distance to the target is its number.
fn key(n: u8) -> Key<PeerId> {
    Key { preimage: peer(n), bytes: KeyBytes { hi: 0, lo: n as u128 } }
}

fn keys(ns: &[u8]) -> Vec<Key<PeerId>> {
    ns.iter().map(|n| key(*n)).collect()
}

fn contact(n: u8) -> PeersIterState {
    PeersIterState::Waiting(Some(peer(n)))
}

fn config(parallelism: usize, num_results: usize) -> ClosestPeersIterConfig {
    ClosestPeersIterConfig { parallelism, num_results, ..ClosestPeersIterConfig::default() }
}

#[test]
fn peers_are_told_apart() {
    assert!(peer(3).same(&peer(3)));
    assert!(!peer(3).same(&peer(4)));
    assert!(!peer(3).same(&PeerId { code: 0, ..peer(3) }));
    assert!(!peer(3).same(&PeerId { size: 32, ..peer(3) }));
}

#[test]
fn fixed_contacts_each_peer_once() {
    let mut iter = FixedPeersIter::new(vec![peer(1), peer(1), peer(2), peer(1), peer(3)], 2);
    assert_eq!(iter.next(), contact(1));
    assert_eq!(iter.next(), contact(2));
    assert_eq!(iter.next(), PeersIterState::WaitingAtCapacity);
    assert!(iter.is_waiting(&peer(1)));
    assert!(!iter.is_waiting(&peer(3)));
    assert!(iter.on_success(&peer(1)));
    assert!(!iter.is_waiting(&peer(1)));
    assert!(!iter.on_success(&peer(1)));
    assert!(!iter.on_failure(&peer(3)));
    assert_eq!(iter.next(), contact(3));
    assert!(iter.on_failure(&peer(2)));
    assert_eq!(iter.next(), PeersIterState::Waiting(None));
    assert!(iter.on_success(&peer(3)));
    assert!(!iter.is_finished());
    assert_eq!(iter.next(), PeersIterState::Finished);
    assert!(iter.is_finished());
    assert_eq!(iter.next(), PeersIterState::Finished);
    assert_eq!(iter.into_result(), vec![peer(1), peer(3)]);
}

#[test]
fn fixed_without_peers_is_finished() {
    let mut iter = FixedPeersIter::new(vec![], 1);
    assert_eq!(iter.next(), PeersIterState::Finished);
    assert_eq!(iter.into_result(), vec![]);
}

#[test]
fn fixed_takes_no_results_after_finish() {
    let mut iter = FixedPeersIter::new(vec![peer(1)], 1);
    assert_eq!(iter.next(), contact(1));
    iter.finish();
    assert!(iter.is_finished());
    assert!(!iter.on_success(&peer(1)));
    assert_eq!(iter.next(), PeersIterState::Finished);
    assert_eq!(iter.into_result(), vec![]);
}

#[test]
fn default_configuration() {
    let config = ClosestPeersIterConfig::default();
    assert_eq!(config.parallelism, 3);
    assert_eq!(config.num_results, 20);
    assert_eq!(config.peer_timeout, Duration::from_secs(10));
}

#[test]
fn closest_comes_first() {
    let mut iter = ClosestPeersIter::with_config(config(3, 20), TARGET, keys(&[9, 4, 6, 4, 8]));
    assert_eq!(iter.next(START), contact(4));
    assert_eq!(iter.next(START), contact(6));
    assert_eq!(iter.next(START), contact(8));
    assert_eq!(iter.next(START), PeersIterState::WaitingAtCapacity);
    assert!(iter.is_waiting(&peer(6)));
    // A closer peer becomes known, and is contacted next.
    assert!(iter.on_success(&peer(4), keys(&[5, 1])));
    assert_eq!(iter.next(START), contact(1));
}

#[test]
fn closest_starts_with_as_many_as_fit_a_bucket() {
    let ns: Vec<u8> = (1..=30).rev().collect();
    let mut iter = ClosestPeersIter::with_config(config(100, 100), TARGET, keys(&ns));
    let mut contacted = 0;
    while let PeersIterState::Waiting(Some(p)) = iter.next(START) {
        contacted += 1;
        // The first twenty that were given have the numbers from 11 on.
        assert!(p == peer(10 + contacted));
    }
    assert_eq!(contacted, 20);
    assert_eq!(iter.next(START), PeersIterState::Waiting(None));
}

#[test]
fn closest_finishes_with_enough_results() {
    let mut iter = ClosestPeersIter::with_config(config(2, 2), TARGET, keys(&[1, 2, 3]));
    assert_eq!(iter.next(START), contact(1));
    assert_eq!(iter.next(START), contact(2));
    assert!(iter.on_success(&peer(2), vec![]));
    // The closer peer is still waited for.
    assert_eq!(iter.next(START), contact(3));
    assert!(iter.on_success(&peer(3), vec![]));
    assert!(iter.on_success(&peer(1), vec![]));
    assert_eq!(iter.next(START), PeersIterState::Finished);
    assert!(iter.is_finished());
    assert_eq!(iter.into_result(), vec![peer(1), peer(2)]);
}

#[test]
fn closest_finishes_without_further_peers() {
    let mut iter = ClosestPeersIter::with_config(config(2, 5), TARGET, keys(&[1, 2]));
    assert_eq!(iter.next(START), contact(1));
    assert_eq!(iter.next(START), contact(2));
    assert!(iter.on_failure(&peer(1)));
    assert!(!iter.on_failure(&peer(1)));
    assert_eq!(iter.next(START), PeersIterState::Waiting(None));
    assert!(iter.on_success(&peer(2), vec![]));
    assert_eq!(iter.next(START), PeersIterState::Finished);
    assert_eq!(iter.into_result(), vec![peer(2)]);
}

#[test]
fn unresponsive_peer_frees_capacity() {
    let mut iter = ClosestPeersIter::with_config(config(1, 5), TARGET, keys(&[1, 2]));
    assert_eq!(iter.next(START), contact(1));
    let before = Instant { nanos: 9_999_999_999 };
    assert_eq!(iter.next(before), PeersIterState::WaitingAtCapacity);
    let after = Instant { nanos: 10_000_000_000 };
    // The peer is found unresponsive on the way, while there was no room yet.
    assert_eq!(iter.next(after), PeersIterState::WaitingAtCapacity);
    assert!(!iter.is_waiting(&peer(1)));
    assert_eq!(iter.next(after), contact(2));
    // Its result is still taken.
    assert!(iter.on_success(&peer(1), vec![]));
    assert!(iter.on_failure(&peer(2)));
    assert_eq!(iter.next(after), PeersIterState::Finished);
    assert_eq!(iter.into_result(), vec![peer(1)]);
}

#[test]
fn stalled_iterator_asks_more_peers() {
    let mut iter = ClosestPeersIter::with_config(config(1, 3), TARGET, keys(&[1, 2, 3, 4, 5]));
    assert_eq!(iter.next(START), contact(1));
    assert_eq!(iter.next(START), PeersIterState::WaitingAtCapacity);
    // An answer without closer peers, where enough are known: no progress.
    assert!(iter.on_success(&peer(1), vec![]));
    assert_eq!(iter.next(START), contact(2));
    assert_eq!(iter.next(START), contact(3));
    assert_eq!(iter.next(START), contact(4));
    assert_eq!(iter.next(START), PeersIterState::WaitingAtCapacity);
    // Progress brings the number of requests down again.
    assert!(iter.on_success(&peer(4), vec![Key { preimage: peer(77), bytes: TARGET }]));
    assert_eq!(iter.next(START), PeersIterState::WaitingAtCapacity);
}

#[test]
fn closest_takes_no_results_after_finish() {
    let mut iter = ClosestPeersIter::with_config(config(1, 3), TARGET, keys(&[1]));
    assert_eq!(iter.next(START), contact(1));
    iter.finish();
    assert!(!iter.on_success(&peer(1), keys(&[2])));
    assert!(!iter.on_failure(&peer(1)));
    assert_eq!(iter.next(START), PeersIterState::Finished);
}
