//! What answers, failures and the passing of time mean for an iterator towards the
//! closest peers, and what its result is.

use vstd::prelude::*;

use crate::kbucket::key::{Key, KeyBytes};
use crate::peer::PeerId;
use crate::query::peers::closest::{
    answered, candidate_is_first, candidate_of, closest_first, comes_closer, count_open,
    count_waiting, default_config, first_keys, key_distance, with_key, with_keys, Candidate,
    ClosestPeers, ContactState, Headway,
};
use crate::query::peers::PeersIterState;
use crate::time::Instant;

verus! {

/// Whether a candidate with the key is among the candidates, in the given state.
pub open spec fn holds(candidates: Seq<Candidate>, key: Key<PeerId>, state: ContactState) -> bool {
    exists|k: int|
        0 <= k < candidates.len() && (#[trigger] candidates[k]).key == key && candidates[k].state
            == state
}

/// Whether a candidate at the distance of the key is among the candidates.
pub open spec fn knows(target: KeyBytes, candidates: Seq<Candidate>, key: Key<PeerId>) -> bool {
    exists|k: int|
        0 <= k < candidates.len() && key_distance(target, (#[trigger] candidates[k]).key)
            == key_distance(target, key)
}

/// Adding a key keeps every candidate, makes the key known, and adds nothing else.
proof fn key_is_added(target: KeyBytes, candidates: Seq<Candidate>, key: Key<PeerId>)
    ensures
        ({
            let after = with_key(target, candidates, key);
            &&& knows(target, after, key)
            &&& forall|i: int|
                0 <= i < candidates.len() ==> holds(
                    after,
                    (#[trigger] candidates[i]).key,
                    candidates[i].state,
                )
            &&& forall|k: int|
                0 <= k < after.len() ==> holds(
                    candidates,
                    (#[trigger] after[k]).key,
                    after[k].state,
                ) || after[k] == (Candidate { key, state: ContactState::NotContacted })
        }),
    decreases candidates.len(),
{
    let after = with_key(target, candidates, key);
    let new = Candidate { key, state: ContactState::NotContacted };
    if candidates.len() == 0 || key_distance(target, candidates.last().key) < key_distance(
        target,
        key,
    ) {
        assert(after[after.len() - 1] == new);
        assert forall|i: int| 0 <= i < candidates.len() implies holds(
            after,
            (#[trigger] candidates[i]).key,
            candidates[i].state,
        ) by {
            assert(after[i] == candidates[i]);
        }
        assert forall|k: int| 0 <= k < after.len() implies holds(
            candidates,
            (#[trigger] after[k]).key,
            after[k].state,
        ) || after[k] == new by {
            if k < candidates.len() {
                assert(candidates[k] == after[k]);
            }
        }
    } else if key_distance(target, candidates.last().key) == key_distance(target, key) {
        assert(after[after.len() - 1] == candidates.last());
    } else {
        let init = candidates.drop_last();
        let inner = with_key(target, init, key);
        key_is_added(target, init, key);
        let k = choose|k: int|
            0 <= k < inner.len() && key_distance(target, (#[trigger] inner[k]).key)
                == key_distance(target, key);
        assert(after[k] == inner[k]);
        assert forall|i: int| 0 <= i < candidates.len() implies holds(
            after,
            (#[trigger] candidates[i]).key,
            candidates[i].state,
        ) by {
            if i < init.len() {
                assert(init[i] == candidates[i]);
                assert(holds(inner, init[i].key, init[i].state));
                let h = choose|h: int|
                    0 <= h < inner.len() && (#[trigger] inner[h]).key == init[i].key
                        && inner[h].state == init[i].state;
                assert(after[h] == inner[h]);
            } else {
                assert(after[after.len() - 1] == candidates[i]);
            }
        }
        assert forall|k: int| 0 <= k < after.len() implies holds(
            candidates,
            (#[trigger] after[k]).key,
            after[k].state,
        ) || after[k] == new by {
            if k < inner.len() {
                assert(after[k] == inner[k]);
                if inner[k] != new {
                    assert(holds(init, inner[k].key, inner[k].state));
                    let h = choose|h: int|
                        0 <= h < init.len() && (#[trigger] init[h]).key == inner[k].key
                            && init[h].state == inner[k].state;
                    assert(candidates[h] == init[h]);
                }
            } else {
                assert(candidates[candidates.len() - 1] == after[k]);
            }
        }
    }
}

/// Adding keys keeps every candidate, makes all keys known, and adds nothing else.
pub proof fn keys_are_added(
    target: KeyBytes,
    candidates: Seq<Candidate>,
    keys: Seq<Key<PeerId>>,
)
    ensures
        ({
            let after = with_keys(target, candidates, keys);
            &&& forall|i: int| 0 <= i < keys.len() ==> knows(target, after, #[trigger] keys[i])
            &&& forall|i: int|
                0 <= i < candidates.len() ==> holds(
                    after,
                    (#[trigger] candidates[i]).key,
                    candidates[i].state,
                )
            &&& forall|k: int|
                0 <= k < after.len() ==> holds(
                    candidates,
                    (#[trigger] after[k]).key,
                    after[k].state,
                ) || (after[k].state is NotContacted && keys.contains(after[k].key))
        }),
    decreases keys.len(),
{
    let after = with_keys(target, candidates, keys);
    if keys.len() == 0 {
        assert forall|i: int| 0 <= i < candidates.len() implies holds(
            after,
            (#[trigger] candidates[i]).key,
            candidates[i].state,
        ) by {
            assert(after[i] == candidates[i]);
        }
    } else {
        let init = keys.drop_last();
        let mid = with_keys(target, candidates, init);
        keys_are_added(target, candidates, init);
        key_is_added(target, mid, keys.last());
        assert forall|i: int| 0 <= i < keys.len() implies knows(
            target,
            after,
            #[trigger] keys[i],
        ) by {
            if i < init.len() {
                assert(init[i] == keys[i]);
                assert(knows(target, mid, init[i]));
                let k = choose|k: int|
                    0 <= k < mid.len() && key_distance(target, (#[trigger] mid[k]).key)
                        == key_distance(target, init[i]);
                assert(holds(after, mid[k].key, mid[k].state));
                let h = choose|h: int|
                    0 <= h < after.len() && (#[trigger] after[h]).key == mid[k].key
                        && after[h].state == mid[k].state;
                assert(key_distance(target, after[h].key) == key_distance(target, keys[i]));
            }
        }
        assert forall|i: int| 0 <= i < candidates.len() implies holds(
            after,
            (#[trigger] candidates[i]).key,
            candidates[i].state,
        ) by {
            assert(holds(mid, candidates[i].key, candidates[i].state));
            let k = choose|k: int|
                0 <= k < mid.len() && (#[trigger] mid[k]).key == candidates[i].key && mid[k].state
                    == candidates[i].state;
            assert(holds(after, mid[k].key, mid[k].state));
        }
        assert forall|k: int| 0 <= k < after.len() implies holds(
            candidates,
            (#[trigger] after[k]).key,
            after[k].state,
        ) || (after[k].state is NotContacted && keys.contains(after[k].key)) by {
            if holds(mid, after[k].key, after[k].state) {
                let h = choose|h: int|
                    0 <= h < mid.len() && (#[trigger] mid[h]).key == after[k].key && mid[h].state
                        == after[k].state;
                if !holds(candidates, mid[h].key, mid[h].state) {
                    assert(init.contains(mid[h].key));
                    let i = choose|i: int| 0 <= i < init.len() && init[i] == mid[h].key;
                    assert(keys[i] == after[k].key);
                }
            } else {
                assert(keys[keys.len() - 1] == after[k].key);
            }
        }
    }
}

/// An iterator starts with the first keys that it is given, as many as fit a bucket, and
/// with nothing else; none of these peers was contacted.
pub proof fn starts_with_first_keys(target: KeyBytes, keys: Seq<Key<PeerId>>)
    ensures
        ({
            let start = with_keys(target, Seq::empty(), first_keys(keys));
            &&& forall|i: int|
                0 <= i < keys.len() && i < 20 ==> knows(target, start, #[trigger] keys[i])
            &&& forall|k: int|
                0 <= k < start.len() ==> (#[trigger] start[k]).state is NotContacted && exists|
                    i: int,
                |
                    0 <= i < keys.len() && i < 20 && #[trigger] keys[i] == start[k].key
        }),
{
    let first = first_keys(keys);
    let start = with_keys(target, Seq::empty(), first);
    keys_are_added(target, Seq::empty(), first);
    assert forall|i: int| 0 <= i < keys.len() && i < 20 implies knows(
        target,
        start,
        #[trigger] keys[i],
    ) by {
        assert(first[i] == keys[i]);
    }
    assert forall|k: int| 0 <= k < start.len() implies (#[trigger] start[k]).state is NotContacted
        && exists|i: int| 0 <= i < keys.len() && i < 20 && #[trigger] keys[i] == start[k].key by {
        assert(!holds(Seq::empty(), start[k].key, start[k].state));
        let i = choose|i: int| 0 <= i < first.len() && first[i] == start[k].key;
        assert(keys[i] == start[k].key);
    }
}

/// Where no configuration is given, three peers are waited for at the same time, twenty
/// results are wanted, and a peer is waited for ten seconds.
pub proof fn usual_configuration()
    ensures
        default_config().parallelism == 3,
        default_config().num_results == 20,
        default_config().peer_timeout.nanos == 10_000_000_000,
{
}

/// Whether the peer has its first candidate at `j`, with an open request.
pub open spec fn is_asked(peers: ClosestPeers, peer: PeerId, j: int) -> bool {
    &&& 0 <= j < peers.candidates.len()
    &&& peers.candidates[j].key.preimage == peer
    &&& peers.candidates[j].state is Waiting || peers.candidates[j].state is Unresponsive
    &&& forall|h: int| 0 <= h < j ==> (#[trigger] peers.candidates[h]).key.preimage != peer
}

/// Whether new keys bring the iterator on: too few peers are known for the results that
/// are wanted, or one of the keys is at most as far from the target as all that is known
/// by then.
pub open spec fn brings_on(peers: ClosestPeers, closer: Seq<Key<PeerId>>) -> bool {
    &&& closer.len() > 0
    &&& peers.candidates.len() < peers.config.num_results || exists|i: int|
        0 <= i < closer.len() && is_nearest(
            peers.target,
            peers.candidates,
            closer,
            #[trigger] closer[i],
            i,
        )
}

/// Whether a key is at most as far from the target as all candidates and as the first `i`
/// of the new keys.
pub open spec fn is_nearest(
    target: KeyBytes,
    candidates: Seq<Candidate>,
    closer: Seq<Key<PeerId>>,
    key: Key<PeerId>,
    i: int,
) -> bool {
    &&& forall|k: int|
        0 <= k < candidates.len() ==> key_distance(target, key) <= key_distance(
            target,
            (#[trigger] candidates[k]).key,
        )
    &&& forall|h: int|
        0 <= h < i ==> key_distance(target, key) <= key_distance(target, #[trigger] closer[h])
}

proof fn front_is_nearest(
    target: KeyBytes,
    candidates: Seq<Candidate>,
    keys: Seq<Key<PeerId>>,
)
    requires
        closest_first(target, candidates),
        keys.len() > 0,
    ensures
        ({
            let now = with_keys(target, candidates, keys);
            &&& now.len() > 0
            &&& (key_distance(target, now[0].key) == key_distance(target, keys.last()))
                <==> is_nearest(target, candidates, keys, keys.last(), keys.len() - 1)
        }),
{
    let now = with_keys(target, candidates, keys);
    let n = keys.len() - 1;
    keys_are_added(target, candidates, keys);
    crate::query::peers::closest_laws::keys_come_in_place(target, candidates, keys);
    assert(knows(target, now, keys[n]));
    let at = choose|k: int|
        0 <= k < now.len() && key_distance(target, (#[trigger] now[k]).key) == key_distance(
            target,
            keys[n],
        );
    assert(now.len() > 0);
    if key_distance(target, now[0].key) == key_distance(target, keys.last()) {
        assert forall|k: int| 0 <= k < candidates.len() implies key_distance(target, keys.last())
            <= key_distance(target, (#[trigger] candidates[k]).key) by {
            assert(holds(now, candidates[k].key, candidates[k].state));
            let h = choose|h: int|
                0 <= h < now.len() && (#[trigger] now[h]).key == candidates[k].key && now[h].state
                    == candidates[k].state;
            if h > 0 {
                assert(key_distance(target, now[0].key) < key_distance(target, now[h].key));
            }
        }
        assert forall|i: int| 0 <= i < n implies key_distance(target, keys.last()) <= key_distance(
            target,
            #[trigger] keys[i],
        ) by {
            assert(knows(target, now, keys[i]));
            let h = choose|h: int|
                0 <= h < now.len() && key_distance(target, (#[trigger] now[h]).key)
                    == key_distance(target, keys[i]);
            if h > 0 {
                assert(key_distance(target, now[0].key) < key_distance(target, now[h].key));
            }
        }
    }
    if is_nearest(target, candidates, keys, keys.last(), n) {
        if at > 0 {
            assert(key_distance(target, now[0].key) < key_distance(target, now[at].key));
            let first = now[0];
            if holds(candidates, first.key, first.state) {
                let k = choose|k: int|
                    0 <= k < candidates.len() && (#[trigger] candidates[k]).key == first.key
                        && candidates[k].state == first.state;
                assert(key_distance(target, keys.last()) <= key_distance(
                    target,
                    candidates[k].key,
                ));
            } else {
                let i = choose|i: int| 0 <= i < keys.len() && keys[i] == first.key;
                assert(key_distance(target, keys.last()) <= key_distance(target, keys[i]));
            }
        }
    }
}

proof fn nearest_by_earlier_keys(
    target: KeyBytes,
    candidates: Seq<Candidate>,
    a: Seq<Key<PeerId>>,
    b: Seq<Key<PeerId>>,
    key: Key<PeerId>,
    i: int,
)
    requires
        0 <= i <= a.len(),
        i <= b.len(),
        forall|h: int| 0 <= h < i ==> #[trigger] a[h] == b[h],
        is_nearest(target, candidates, a, key, i),
    ensures
        is_nearest(target, candidates, b, key, i),
{
    assert forall|h: int| 0 <= h < i implies key_distance(target, key) <= key_distance(
        target,
        #[trigger] b[h],
    ) by {
        assert(a[h] == b[h]);
    }
}

/// Whether one of the keys is the nearest when it comes.
spec fn has_nearest(target: KeyBytes, candidates: Seq<Candidate>, keys: Seq<Key<PeerId>>) -> bool {
    exists|i: int|
        0 <= i < keys.len() && is_nearest(target, candidates, keys, #[trigger] keys[i], i)
}

proof fn nearest_among_more(
    target: KeyBytes,
    candidates: Seq<Candidate>,
    keys: Seq<Key<PeerId>>,
)
    requires
        keys.len() > 0,
    ensures
        has_nearest(target, candidates, keys) <==> has_nearest(
            target,
            candidates,
            keys.drop_last(),
        ) || is_nearest(target, candidates, keys, keys.last(), keys.len() - 1),
{
    let init = keys.drop_last();
    let n = keys.len() - 1;
    assert(keys[n] == keys.last());
    if has_nearest(target, candidates, init) {
        let i = choose|i: int|
            0 <= i < init.len() && is_nearest(target, candidates, init, #[trigger] init[i], i);
        assert(keys[i] == init[i]);
        nearest_by_earlier_keys(target, candidates, init, keys, keys[i], i);
    }
    if has_nearest(target, candidates, keys) {
        let i = choose|i: int|
            0 <= i < keys.len() && is_nearest(target, candidates, keys, #[trigger] keys[i], i);
        if i < n {
            assert(keys[i] == init[i]);
            nearest_by_earlier_keys(target, candidates, keys, init, init[i], i);
        }
    }
}

proof fn comes_closer_by_nearest(
    target: KeyBytes,
    candidates: Seq<Candidate>,
    keys: Seq<Key<PeerId>>,
)
    requires
        closest_first(target, candidates),
    ensures
        comes_closer(target, candidates, keys) <==> has_nearest(target, candidates, keys),
    decreases keys.len(),
{
    if keys.len() > 0 {
        comes_closer_by_nearest(target, candidates, keys.drop_last());
        front_is_nearest(target, candidates, keys);
        nearest_among_more(target, candidates, keys);
    }
}

/// An answer of a peer with an open request is taken: the peer has succeeded, every peer
/// in the answer is known from then on, every other candidate stays as it is, and nothing
/// else is added.
pub proof fn answer_is_taken(peers: ClosestPeers, peer: PeerId, closer: Seq<Key<PeerId>>, j: int)
    requires
        peers.headway != Headway::Finished,
        is_asked(peers, peer, j),
    ensures
        ({
            let (after, updated) = peers.on_success(peer, closer);
            &&& updated
            &&& after.config == peers.config
            &&& after.target == peers.target
            &&& holds(after.candidates, peers.candidates[j].key, ContactState::Succeeded)
            &&& forall|i: int|
                0 <= i < closer.len() ==> knows(
                    peers.target,
                    after.candidates,
                    #[trigger] closer[i],
                )
            &&& forall|i: int|
                0 <= i < peers.candidates.len() && i != j ==> holds(
                    after.candidates,
                    (#[trigger] peers.candidates[i]).key,
                    peers.candidates[i].state,
                )
            &&& forall|k: int|
                0 <= k < after.candidates.len() ==> {
                    let found = #[trigger] after.candidates[k];
                    ||| found.state is Succeeded && found.key == peers.candidates[j].key
                    ||| holds(peers.candidates, found.key, found.state)
                    ||| found.state is NotContacted && closer.contains(found.key)
                }
        }),
{
    candidate_is_first(peers.candidates, peer);
    let marked = peers.with_state(j, ContactState::Succeeded);
    assert(candidate_of(peers.candidates, peer) == Some(j)) by {
        let i = candidate_of(peers.candidates, peer)->0;
        if i < j {
            assert(peers.candidates[i].key.preimage != peer);
        } else if j < i {
            assert(peers.candidates[j].key.preimage != peer);
        }
    }
    keys_are_added(peers.target, marked.candidates, closer);
    let after = peers.on_success(peer, closer).0;
    assert(marked.candidates[j].key == peers.candidates[j].key);
    assert(holds(after.candidates, marked.candidates[j].key, marked.candidates[j].state));
    assert forall|i: int| 0 <= i < peers.candidates.len() && i != j implies holds(
        after.candidates,
        (#[trigger] peers.candidates[i]).key,
        peers.candidates[i].state,
    ) by {
        assert(marked.candidates[i] == peers.candidates[i]);
    }
    assert forall|k: int| 0 <= k < after.candidates.len() implies ({
        let found = #[trigger] after.candidates[k];
        ||| found.state is Succeeded && found.key == peers.candidates[j].key
        ||| holds(peers.candidates, found.key, found.state)
        ||| found.state is NotContacted && closer.contains(found.key)
    }) by {
        let found = after.candidates[k];
        if holds(marked.candidates, found.key, found.state) {
            let h = choose|h: int|
                0 <= h < marked.candidates.len() && (#[trigger] marked.candidates[h]).key
                    == found.key && marked.candidates[h].state == found.state;
            if h != j {
                assert(peers.candidates[h] == marked.candidates[h]);
            }
        }
    }
}

/// How an answer moves the iterator: it iterates on if the answer brings it on, and it
/// stalls after as many answers in a row that do not as peers may be waited for.
pub proof fn answer_moves_iterator(
    peers: ClosestPeers,
    peer: PeerId,
    closer: Seq<Key<PeerId>>,
    j: int,
)
    requires
        peers.headway != Headway::Finished,
        is_asked(peers, peer, j),
        closest_first(peers.target, peers.candidates),
        peers.config.parallelism > 0,
    ensures
        ({
            let after = peers.on_success(peer, closer).0.headway;
            if brings_on(peers, closer) {
                after == Headway::Iterating { no_progress: 0 }
            } else {
                match peers.headway {
                    Headway::Iterating { no_progress } => if no_progress + 1
                        < peers.config.parallelism {
                        after matches Headway::Iterating { no_progress: more } && more
                            == no_progress + 1
                    } else {
                        after == Headway::Stalled
                    },
                    _ => after == Headway::Stalled,
                }
            }
        }),
{
    answer_is_taken(peers, peer, closer, j);
    candidate_is_first(peers.candidates, peer);
    let i = candidate_of(peers.candidates, peer)->0;
    if i < j {
        assert(peers.candidates[i].key.preimage != peer);
    } else if j < i {
        assert(peers.candidates[j].key.preimage != peer);
    }
    let marked = peers.with_state(j, ContactState::Succeeded).candidates;
    assert(closest_first(peers.target, marked));
    comes_closer_by_nearest(peers.target, marked, closer);
    if has_nearest(peers.target, marked, closer) {
        nearest_in_any_state(peers.target, marked, peers.candidates, closer);
    }
    if has_nearest(peers.target, peers.candidates, closer) {
        nearest_in_any_state(peers.target, peers.candidates, marked, closer);
    }
}

proof fn nearest_in_any_state(
    target: KeyBytes,
    a: Seq<Candidate>,
    b: Seq<Candidate>,
    keys: Seq<Key<PeerId>>,
)
    requires
        a.len() == b.len(),
        forall|k: int| 0 <= k < a.len() ==> (#[trigger] a[k]).key == b[k].key,
        has_nearest(target, a, keys),
    ensures
        has_nearest(target, b, keys),
{
    let i = choose|i: int|
        0 <= i < keys.len() && is_nearest(target, a, keys, #[trigger] keys[i], i);
    assert forall|k: int| 0 <= k < b.len() implies key_distance(target, keys[i]) <= key_distance(
        target,
        (#[trigger] b[k]).key,
    ) by {
        assert(a[k].key == b[k].key);
    }
    assert(is_nearest(target, b, keys, keys[i], i));
}

/// A failure of a peer with an open request is noted, of that peer alone.
pub proof fn failure_is_noted(peers: ClosestPeers, peer: PeerId, j: int)
    requires
        peers.headway != Headway::Finished,
        is_asked(peers, peer, j),
    ensures
        ({
            let (after, updated) = peers.on_failure(peer);
            &&& updated
            &&& after.candidates.len() == peers.candidates.len()
            &&& after.candidates[j].key == peers.candidates[j].key
            &&& after.candidates[j].state is Failed
            &&& forall|i: int|
                0 <= i < peers.candidates.len() && i != j ==> #[trigger] after.candidates[i]
                    == peers.candidates[i]
            &&& after.headway == peers.headway
            &&& after.config == peers.config
            &&& after.target == peers.target
        }),
{
    candidate_is_first(peers.candidates, peer);
    let i = candidate_of(peers.candidates, peer)->0;
    if i < j {
        assert(peers.candidates[i].key.preimage != peer);
    } else if j < i {
        assert(peers.candidates[j].key.preimage != peer);
    }
}

/// An answer or a failure of a peer without an open request changes nothing, nor does any
/// after the end.
pub proof fn unexpected_result_is_ignored(
    peers: ClosestPeers,
    peer: PeerId,
    closer: Seq<Key<PeerId>>,
)
    requires
        peers.headway == Headway::Finished || forall|i: int|
            0 <= i < peers.candidates.len() && (#[trigger] peers.candidates[i]).key.preimage
                == peer ==> !(peers.candidates[i].state is Waiting)
                && !(peers.candidates[i].state is Unresponsive),
    ensures
        peers.on_success(peer, closer) == (peers, false),
        peers.on_failure(peer) == (peers, false),
        peers.headway != Headway::Finished ==> !peers.is_waiting(peer),
{
    candidate_is_first(peers.candidates, peer);
}

/// A peer is waited for if its candidate is.
pub proof fn candidate_decides_waiting(peers: ClosestPeers, peer: PeerId, j: int)
    requires
        0 <= j < peers.candidates.len(),
        peers.candidates[j].key.preimage == peer,
        forall|h: int| 0 <= h < j ==> (#[trigger] peers.candidates[h]).key.preimage != peer,
    ensures
        peers.is_waiting(peer) <==> peers.candidates[j].state is Waiting,
{
    candidate_is_first(peers.candidates, peer);
    let i = candidate_of(peers.candidates, peer)->0;
    if i < j {
        assert(peers.candidates[i].key.preimage != peer);
    } else if j < i {
        assert(peers.candidates[j].key.preimage != peer);
    }
}

/// A peer that is no candidate is not waited for.
pub proof fn unknown_peer_is_not_waiting(peers: ClosestPeers, peer: PeerId)
    requires
        forall|h: int|
            0 <= h < peers.candidates.len() ==> (#[trigger] peers.candidates[h]).key.preimage
                != peer,
    ensures
        !peers.is_waiting(peer),
{
    candidate_is_first(peers.candidates, peer);
}

/// The candidates that answered.
pub open spec fn answering(candidates: Seq<Candidate>) -> Seq<Candidate> {
    candidates.filter(|c: Candidate| c.state is Succeeded)
}

proof fn answered_is_filter(candidates: Seq<Candidate>)
    ensures
        answered(candidates) == answering(candidates).map_values(|c: Candidate| c.key.preimage),
    decreases candidates.len(),
{
    broadcast use Seq::lemma_filter_push;

    let p = |c: Candidate| c.state is Succeeded;
    let f = |c: Candidate| c.key.preimage;
    if candidates.len() > 0 {
        let init = candidates.drop_last();
        answered_is_filter(init);
        assert(candidates =~= init.push(candidates.last()));
        assert(answered(candidates) =~= candidates.filter(p).map_values(f));
    } else {
        assert(candidates.filter(p).len() == 0) by {
            reveal(Seq::filter);
        }
        assert(answered(candidates) =~= candidates.filter(p).map_values(f));
    }
}

proof fn filter_keeps_order(target: KeyBytes, candidates: Seq<Candidate>)
    requires
        closest_first(target, candidates),
    ensures
        closest_first(target, answering(candidates)),
        forall|n: int|
            0 <= n < answering(candidates).len() ==> candidates.contains(
                #[trigger] answering(candidates)[n],
            ),
    decreases candidates.len(),
{
    broadcast use Seq::lemma_filter_push;

    let p = |c: Candidate| c.state is Succeeded;
    if candidates.len() > 0 {
        let init = candidates.drop_last();
        let last = candidates.last();
        assert(closest_first(target, init));
        filter_keeps_order(target, init);
        assert(candidates =~= init.push(last));
        let all = answering(candidates);
        let some = answering(init);
        assert forall|n: int| 0 <= n < all.len() implies candidates.contains(
            #[trigger] all[n],
        ) by {
            if n < some.len() {
                assert(all[n] == some[n]);
                let i = choose|i: int| 0 <= i < init.len() && init[i] == some[n];
                assert(candidates[i] == all[n]);
            } else {
                assert(candidates[candidates.len() - 1] == all[n]);
            }
        }
        assert forall|i: int, j: int| 0 <= i < j < all.len() implies key_distance(
            target,
            (#[trigger] all[i]).key,
        ) < key_distance(target, (#[trigger] all[j]).key) by {
            assert(all[i] == some[i]);
            if j < some.len() {
                assert(all[j] == some[j]);
            } else {
                assert(init.contains(some[i]));
                let h = choose|h: int| 0 <= h < init.len() && init[h] == some[i];
                assert(candidates[h] == all[i]);
                assert(candidates[candidates.len() - 1] == all[j]);
            }
        }
    } else {
        assert(candidates.filter(p).len() == 0) by {
            reveal(Seq::filter);
        }
    }
}

/// The result is complete: it holds the peers that answered, closest first, all of them if
/// no more answered than results are wanted. Otherwise it holds as many as are wanted, and
/// none that is left out is closer to the target than one in the result.
pub proof fn result_is_complete(peers: ClosestPeers)
    requires
        closest_first(peers.target, peers.candidates),
    ensures
        ({
            let good = answering(peers.candidates);
            let wanted = peers.config.num_results;
            &&& good.len() <= wanted ==> peers.result().len() == good.len()
            &&& good.len() > wanted ==> peers.result().len() == wanted
            &&& forall|n: int|
                0 <= n < peers.result().len() ==> #[trigger] peers.result()[n]
                    == good[n].key.preimage
            &&& forall|n: int, m: int|
                0 <= n < peers.result().len() <= m < good.len() ==> key_distance(
                    peers.target,
                    (#[trigger] good[n]).key,
                ) < key_distance(peers.target, (#[trigger] good[m]).key)
        }),
{
    answered_is_filter(peers.candidates);
    filter_keeps_order(peers.target, peers.candidates);
}

/// The counters count the candidates that are waited for, and those with an open request.
pub proof fn counters_count_candidates(candidates: Seq<Candidate>)
    ensures
        count_waiting(candidates) == candidates.filter(
            |c: Candidate| c.state is Waiting,
        ).len(),
        count_open(candidates) == candidates.filter(
            |c: Candidate| c.state is Waiting || c.state is Unresponsive,
        ).len(),
    decreases candidates.len(),
{
    broadcast use Seq::lemma_filter_push;

    let p = |c: Candidate| c.state is Waiting;
    let q = |c: Candidate| c.state is Waiting || c.state is Unresponsive;
    if candidates.len() > 0 {
        let init = candidates.drop_last();
        counters_count_candidates(init);
        assert(candidates =~= init.push(candidates.last()));
    } else {
        assert(candidates.filter(p).len() == 0 && candidates.filter(q).len() == 0) by {
            reveal(Seq::filter);
        }
    }
}

/// A stopped iterator is finished and keeps its candidates; a finished one stays as it is.
pub proof fn stopped_is_finished(peers: ClosestPeers, now: Instant)
    ensures
        peers.finish().headway == Headway::Finished,
        peers.finish().candidates == peers.candidates,
        peers.finish().config == peers.config,
        peers.finish().target == peers.target,
        peers.headway == Headway::Finished ==> peers.next(now) == (
            peers,
            PeersIterState::Finished,
        ),
{
}

} // verus!
