//! What holds of every iterator towards the closest peers.

use vstd::prelude::*;

use crate::kbucket::key::{Key, KeyBytes};
use crate::peer::PeerId;
use crate::query::peers::closest::{
    answered, candidate_is_first, candidate_of, closest_first, first_keys, key_distance, with_key,
    with_keys, Candidate, ClosestPeers, ContactState,
};
use crate::query::peers::PeersIterState;
use crate::time::Instant;

verus! {

/// A new key comes in its place among the candidates, unless there is one at
/// the same distance.
pub proof fn key_comes_in_place(target: KeyBytes, candidates: Seq<Candidate>, key: Key<PeerId>)
    requires
        closest_first(target, candidates),
    ensures
        ({
            let after = with_key(target, candidates, key);
            let new = Candidate { key, state: ContactState::NotContacted };
            let known = exists|j: int|
                0 <= j < candidates.len() && key_distance(target, (#[trigger] candidates[j]).key)
                    == key_distance(target, key);
            &&& closest_first(target, after)
            &&& known ==> after == candidates
            &&& !known ==> exists|i: int|
                0 <= i <= candidates.len() && after == #[trigger] candidates.insert(i, new)
        }),
    decreases candidates.len(),
{
    let after = with_key(target, candidates, key);
    let new = Candidate { key, state: ContactState::NotContacted };
    if candidates.len() == 0 {
        assert(after =~= candidates.insert(0, new));
    } else {
        let n = candidates.len() as int;
        let last = candidates.last();
        let init = candidates.drop_last();
        assert(last == candidates[n - 1]);
        if key_distance(target, last.key) < key_distance(target, key) {
            assert(after =~= candidates.insert(n, new));
        } else if key_distance(target, last.key) != key_distance(target, key) {
            assert(closest_first(target, init));
            key_comes_in_place(target, init, key);
            let inner = with_key(target, init, key);
            if exists|j: int|
                0 <= j < candidates.len() && key_distance(target, (#[trigger] candidates[j]).key)
                    == key_distance(target, key) {
                let j = choose|j: int|
                    0 <= j < candidates.len() && key_distance(
                        target,
                        (#[trigger] candidates[j]).key,
                    ) == key_distance(target, key);
                assert(init[j] == candidates[j]);
                assert(after =~= candidates);
            } else {
                assert forall|j: int| 0 <= j < init.len() implies key_distance(
                    target,
                    (#[trigger] init[j]).key,
                ) != key_distance(target, key) by {
                    assert(init[j] == candidates[j]);
                }
                let i = choose|i: int|
                    0 <= i <= init.len() && inner == #[trigger] init.insert(i, new);
                assert(after =~= candidates.insert(i, new));
                assert forall|a: int, b: int| 0 <= a < b < after.len() implies key_distance(
                    target,
                    (#[trigger] after[a]).key,
                ) < key_distance(target, (#[trigger] after[b]).key) by {
                    assert(after[a] == inner[a]);
                    if b < inner.len() {
                        assert(after[b] == inner[b]);
                    } else if a < i {
                        assert(inner[a] == candidates[a]);
                    } else if a > i {
                        assert(inner[a] == candidates[a - 1]);
                    }
                }
            }
        }
    }
}

pub(crate) proof fn keys_come_in_place(
    target: KeyBytes,
    candidates: Seq<Candidate>,
    keys: Seq<Key<PeerId>>,
)
    requires
        closest_first(target, candidates),
    ensures
        closest_first(target, with_keys(target, candidates, keys)),
    decreases keys.len(),
{
    if keys.len() > 0 {
        keys_come_in_place(target, candidates, keys.drop_last());
        key_comes_in_place(
            target,
            with_keys(target, candidates, keys.drop_last()),
            keys.last(),
        );
    }
}

/// An iterator starts with its candidates in the order of their distance.
pub proof fn starts_closest_first(target: KeyBytes, keys: Seq<Key<PeerId>>)
    ensures
        closest_first(target, with_keys(target, Seq::empty(), first_keys(keys))),
{
    keys_come_in_place(target, Seq::empty(), first_keys(keys));
}

/// A failure keeps the order of the candidates.
pub proof fn failure_keeps_order(peers: ClosestPeers, peer: PeerId)
    requires
        closest_first(peers.target, peers.candidates),
    ensures
        closest_first(peers.target, peers.on_failure(peer).0.candidates),
{
    candidate_is_first(peers.candidates, peer);
}

/// An answer keeps the order of the candidates, whatever peers it holds.
pub proof fn success_keeps_order(peers: ClosestPeers, peer: PeerId, closer: Seq<Key<PeerId>>)
    requires
        closest_first(peers.target, peers.candidates),
    ensures
        closest_first(peers.target, peers.on_success(peer, closer).0.candidates),
{
    candidate_is_first(peers.candidates, peer);
    if peers.expects(peer) {
        let marked = peers.with_state(
            candidate_of(peers.candidates, peer)->0,
            ContactState::Succeeded,
        );
        keys_come_in_place(peers.target, marked.candidates, closer);
    }
}

/// Whether both sequences hold the same keys.
pub open spec fn same_keys(a: Seq<Candidate>, b: Seq<Candidate>) -> bool {
    &&& a.len() == b.len()
    &&& forall|j: int| 0 <= j < a.len() ==> (#[trigger] a[j]).key == b[j].key
}

/// Whether `peer` is that of the first candidate from `i` on that was not
/// contacted.
pub open spec fn is_next_contact(candidates: Seq<Candidate>, i: int, peer: PeerId) -> bool {
    exists|j: int|
        {
            &&& i <= j < candidates.len()
            &&& (#[trigger] candidates[j]).state is NotContacted
            &&& candidates[j].key.preimage == peer
            &&& forall|h: int|
                i <= h < j ==> !((#[trigger] candidates[h]).state is NotContacted)
        }
}

proof fn scan_contacts_next(
    peers: ClosestPeers,
    now: Instant,
    full: bool,
    i: int,
    successes: Option<nat>,
)
    requires
        0 <= i,
    ensures
        ({
            let (after, state) = peers.scan(now, full, i, successes);
            &&& same_keys(after.candidates, peers.candidates)
            &&& after.target == peers.target
            &&& after.config == peers.config
            &&& state matches PeersIterState::Waiting(Some(peer)) ==> !full && is_next_contact(
                peers.candidates,
                i,
                peer,
            )
        }),
    decreases peers.candidates.len() - i,
{
    if i < peers.candidates.len() {
        let (after, state) = peers.scan(now, full, i, successes);
        match peers.candidates[i].state {
            ContactState::Waiting(since) => {
                let late = peers.with_state(i, ContactState::Unresponsive);
                scan_contacts_next(late, now, full, i + 1, successes);
                scan_contacts_next(peers, now, full, i + 1, None);
                if let PeersIterState::Waiting(Some(peer)) = late.scan(
                    now,
                    full,
                    i + 1,
                    successes,
                ).1 {
                    next_contact_carries(late.candidates, peers.candidates, i, peer);
                }
                if let PeersIterState::Waiting(Some(peer)) = peers.scan(now, full, i + 1, None).1 {
                    next_contact_carries(peers.candidates, peers.candidates, i, peer);
                }
            },
            ContactState::NotContacted => {},
            ContactState::Succeeded => {
                scan_contacts_next(peers, now, full, i + 1, None);
                if let Some(n) = successes {
                    scan_contacts_next(peers, now, full, i + 1, Some(n + 1));
                }
                if let PeersIterState::Waiting(Some(peer)) = state {
                    next_contact_carries(peers.candidates, peers.candidates, i, peer);
                }
            },
            _ => {
                scan_contacts_next(peers, now, full, i + 1, successes);
                if let PeersIterState::Waiting(Some(peer)) = state {
                    next_contact_carries(peers.candidates, peers.candidates, i, peer);
                }
            },
        }
    }
}

proof fn next_contact_carries(a: Seq<Candidate>, b: Seq<Candidate>, i: int, peer: PeerId)
    requires
        0 <= i < a.len(),
        is_next_contact(a, i + 1, peer),
        a.len() == b.len(),
        forall|h: int| i < h < a.len() ==> #[trigger] a[h] == b[h],
        !(b[i].state is NotContacted),
    ensures
        is_next_contact(b, i, peer),
{
    let j = choose|j: int|
        {
            &&& i + 1 <= j < a.len()
            &&& (#[trigger] a[j]).state is NotContacted
            &&& a[j].key.preimage == peer
            &&& forall|h: int| i + 1 <= h < j ==> !((#[trigger] a[h]).state is NotContacted)
        };
    assert(a[j] == b[j]);
    assert forall|h: int| i <= h < j implies !((#[trigger] b[h]).state is NotContacted) by {
        if h > i {
            assert(a[h] == b[h]);
        }
    }
}

/// The peer to contact is the closest one that was not contacted, and there is
/// room for it.
pub proof fn contacts_closest_first(peers: ClosestPeers, now: Instant)
    ensures
        peers.next(now).1 matches PeersIterState::Waiting(Some(peer)) ==> !peers.at_capacity()
            && is_next_contact(peers.candidates, 0, peer),
{
    scan_contacts_next(peers, now, peers.at_capacity(), 0, Some(0));
}

/// Asking for a peer keeps the candidates and their order.
pub proof fn next_keeps_order(peers: ClosestPeers, now: Instant)
    requires
        closest_first(peers.target, peers.candidates),
    ensures
        same_keys(peers.next(now).0.candidates, peers.candidates),
        closest_first(peers.target, peers.next(now).0.candidates),
{
    scan_contacts_next(peers, now, peers.at_capacity(), 0, Some(0));
}

proof fn answered_are_candidates(candidates: Seq<Candidate>, n: int)
    requires
        0 <= n < answered(candidates).len(),
    ensures
        exists|i: int|
            0 <= i < candidates.len() && (#[trigger] candidates[i]).state is Succeeded
                && candidates[i].key.preimage == answered(candidates)[n],
    decreases candidates.len(),
{
    let init = candidates.drop_last();
    if n < answered(init).len() {
        answered_are_candidates(init, n);
        let i = choose|i: int|
            0 <= i < init.len() && (#[trigger] init[i]).state is Succeeded
                && init[i].key.preimage == answered(init)[n];
        assert(candidates[i] == init[i]);
    } else {
        assert(candidates[candidates.len() - 1] == candidates.last());
    }
}

/// The result holds no more peers than were wanted, and only peers that
/// answered.
pub proof fn result_is_answered(peers: ClosestPeers, n: int)
    requires
        0 <= n < peers.result().len(),
    ensures
        peers.result().len() <= peers.config.num_results,
        exists|i: int|
            0 <= i < peers.candidates.len() && (#[trigger] peers.candidates[i]).state is Succeeded
                && peers.candidates[i].key.preimage == peers.result()[n],
{
    answered_are_candidates(peers.candidates, n);
}

/// Whether each candidate has the key that `key_of` gives for its peer.
pub open spec fn is_keyed(candidates: Seq<Candidate>, key_of: spec_fn(PeerId) -> KeyBytes) -> bool {
    forall|i: int|
        0 <= i < candidates.len() ==> (#[trigger] candidates[i]).key.bytes == key_of(
            candidates[i].key.preimage,
        )
}

/// Whether each key is the one that `key_of` gives for its peer.
pub open spec fn are_keyed(keys: Seq<Key<PeerId>>, key_of: spec_fn(PeerId) -> KeyBytes) -> bool {
    forall|i: int|
        0 <= i < keys.len() ==> (#[trigger] keys[i]).bytes == key_of(keys[i].preimage)
}

/// Whether the candidates are in order, and each has the key of its peer.
pub open spec fn is_sound(peers: ClosestPeers, key_of: spec_fn(PeerId) -> KeyBytes) -> bool {
    closest_first(peers.target, peers.candidates) && is_keyed(peers.candidates, key_of)
}

proof fn with_key_is_keyed(
    target: KeyBytes,
    candidates: Seq<Candidate>,
    key: Key<PeerId>,
    key_of: spec_fn(PeerId) -> KeyBytes,
)
    requires
        is_keyed(candidates, key_of),
        key.bytes == key_of(key.preimage),
    ensures
        is_keyed(with_key(target, candidates, key), key_of),
    decreases candidates.len(),
{
    if candidates.len() > 0 {
        let init = candidates.drop_last();
        assert(is_keyed(init, key_of)) by {
            assert forall|i: int| 0 <= i < init.len() implies (#[trigger] init[i]).key.bytes
                == key_of(init[i].key.preimage) by {
                assert(init[i] == candidates[i]);
            }
        }
        with_key_is_keyed(target, init, key, key_of);
        assert(candidates[candidates.len() - 1] == candidates.last());
    }
}

proof fn with_keys_is_keyed(
    target: KeyBytes,
    candidates: Seq<Candidate>,
    keys: Seq<Key<PeerId>>,
    key_of: spec_fn(PeerId) -> KeyBytes,
)
    requires
        is_keyed(candidates, key_of),
        are_keyed(keys, key_of),
    ensures
        is_keyed(with_keys(target, candidates, keys), key_of),
    decreases keys.len(),
{
    if keys.len() > 0 {
        let init = keys.drop_last();
        assert(are_keyed(init, key_of)) by {
            assert forall|i: int| 0 <= i < init.len() implies (#[trigger] init[i]).bytes == key_of(
                init[i].preimage,
            ) by {
                assert(init[i] == keys[i]);
            }
        }
        assert(keys[keys.len() - 1] == keys.last());
        with_keys_is_keyed(target, candidates, init, key_of);
        with_key_is_keyed(target, with_keys(target, candidates, init), keys.last(), key_of);
    }
}

/// An iterator starts with candidates in order, each with the key of its peer, if
/// it is given such keys.
pub proof fn starts_sound(
    target: KeyBytes,
    keys: Seq<Key<PeerId>>,
    key_of: spec_fn(PeerId) -> KeyBytes,
)
    requires
        are_keyed(keys, key_of),
    ensures
        closest_first(target, with_keys(target, Seq::empty(), first_keys(keys))),
        is_keyed(with_keys(target, Seq::empty(), first_keys(keys)), key_of),
{
    starts_closest_first(target, keys);
    with_keys_is_keyed(target, Seq::empty(), first_keys(keys), key_of);
}

proof fn next_stays_sound(
    peers: ClosestPeers,
    now: Instant,
    key_of: spec_fn(PeerId) -> KeyBytes,
)
    requires
        is_sound(peers, key_of),
    ensures
        is_sound(peers.next(now).0, key_of),
        peers.next(now).0.target == peers.target,
{
    next_keeps_order(peers, now);
    scan_contacts_next(peers, now, peers.at_capacity(), 0, Some(0));
    let after = peers.next(now).0;
    assert forall|i: int| 0 <= i < after.candidates.len() implies (
    #[trigger] after.candidates[i]).key.bytes == key_of(after.candidates[i].key.preimage) by {
        assert(after.candidates[i].key == peers.candidates[i].key);
    }
}

/// Every operation keeps the candidates in order, each with the key of its peer, if
/// the answers hold such keys.
pub proof fn stays_sound(
    peers: ClosestPeers,
    peer: PeerId,
    closer: Seq<Key<PeerId>>,
    now: Instant,
    key_of: spec_fn(PeerId) -> KeyBytes,
)
    requires
        is_sound(peers, key_of),
        are_keyed(closer, key_of),
    ensures
        is_sound(peers.on_failure(peer).0, key_of),
        is_sound(peers.on_success(peer, closer).0, key_of),
        is_sound(peers.next(now).0, key_of),
        is_sound(peers.finish(), key_of),
{
    candidate_is_first(peers.candidates, peer);
    failure_keeps_order(peers, peer);
    success_keeps_order(peers, peer, closer);
    if peers.expects(peer) {
        let marked = peers.with_state(
            candidate_of(peers.candidates, peer)->0,
            ContactState::Succeeded,
        );
        with_keys_is_keyed(peers.target, marked.candidates, closer, key_of);
    }
    next_stays_sound(peers, now, key_of);
}

/// Whether the peer of some candidate is waited for since `now`.
spec fn waits_since(candidates: Seq<Candidate>, peer: PeerId, now: Instant) -> bool {
    exists|j: int|
        0 <= j < candidates.len() && (#[trigger] candidates[j]).state == ContactState::Waiting(now)
            && candidates[j].key.preimage == peer
}

proof fn scan_waits_for_contact(
    peers: ClosestPeers,
    now: Instant,
    full: bool,
    i: int,
    successes: Option<nat>,
)
    requires
        0 <= i,
    ensures
        peers.scan(now, full, i, successes).1 matches PeersIterState::Waiting(Some(peer))
            ==> waits_since(peers.scan(now, full, i, successes).0.candidates, peer, now),
    decreases peers.candidates.len() - i,
{
    if i < peers.candidates.len() {
        let late = peers.with_state(i, ContactState::Unresponsive);
        scan_waits_for_contact(late, now, full, i + 1, successes);
        scan_waits_for_contact(peers, now, full, i + 1, None);
        scan_waits_for_contact(peers, now, full, i + 1, successes);
        if let Some(n) = successes {
            scan_waits_for_contact(peers, now, full, i + 1, Some(n + 1));
        }
        let asked = peers.with_state(i, ContactState::Waiting(now));
        assert(asked.candidates[i].state == ContactState::Waiting(now));
        assert(asked.candidates[i].key == peers.candidates[i].key);
    }
}

/// The iterator waits for a result of the peer that it asks to contact, if all keys of
/// one peer are equal.
pub proof fn contact_is_waited_for(
    peers: ClosestPeers,
    now: Instant,
    key_of: spec_fn(PeerId) -> KeyBytes,
)
    requires
        is_sound(peers, key_of),
    ensures
        peers.next(now).1 matches PeersIterState::Waiting(Some(peer)) ==> peers.next(
            now,
        ).0.is_waiting(peer),
{
    scan_waits_for_contact(peers, now, peers.at_capacity(), 0, Some(0));
    next_stays_sound(peers, now, key_of);
    if let PeersIterState::Waiting(Some(peer)) = peers.next(now).1 {
        let after = peers.next(now).0;
        candidate_is_first(after.candidates, peer);
        let j = choose|j: int|
            0 <= j < after.candidates.len() && (#[trigger] after.candidates[j]).state
                == ContactState::Waiting(now) && after.candidates[j].key.preimage == peer;
        let i = candidate_of(after.candidates, peer)->0;
        assert(after.candidates[i].key.bytes == key_of(peer));
        assert(after.candidates[j].key.bytes == key_of(peer));
    }
}

} // verus!
