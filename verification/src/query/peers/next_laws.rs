//! What an iterator towards the closest peers does when it is asked for a peer to contact.

use vstd::prelude::*;

use crate::query::peers::answer_laws::answering;
use crate::query::peers::closest::{
    count_waiting, Candidate, ClosestPeers, ContactState, Headway,
};
use crate::query::peers::PeersIterState;
use crate::time::Instant;

verus! {

/// How many peers may be waited for: as many as the parallelism allows, and as many as
/// results are wanted if the iterator is stalled and these are more.
pub open spec fn room(peers: ClosestPeers) -> int {
    if peers.headway == Headway::Stalled && peers.config.num_results > peers.config.parallelism {
        peers.config.num_results as int
    } else {
        peers.config.parallelism as int
    }
}

/// Whether a candidate was waited for as long as a peer may be.
pub open spec fn is_late(peers: ClosestPeers, c: Candidate, now: Instant) -> bool {
    c.state matches ContactState::Waiting(since) && (peers.config.peer_timeout.nanos == 0
        || now.nanos - since.nanos >= peers.config.peer_timeout.nanos)
}

/// Whether a candidate is waited for, and still in time.
pub open spec fn is_due(peers: ClosestPeers, c: Candidate, now: Instant) -> bool {
    c.state is Waiting && !is_late(peers, c, now)
}

/// Whether enough of the closest peers answered with the candidate at `m`: as many as are
/// wanted, with no closer peer that is to be contacted or is still waited for.
pub open spec fn is_enough(peers: ClosestPeers, m: int, now: Instant) -> bool {
    &&& 0 <= m < peers.candidates.len()
    &&& peers.candidates[m].state is Succeeded
    &&& answering(peers.candidates.take(m + 1)).len() >= peers.config.num_results
    &&& forall|h: int|
        0 <= h < m ==> !((#[trigger] peers.candidates[h]).state is NotContacted) && !is_due(
            peers,
            peers.candidates[h],
            now,
        )
}

/// Whether nothing holds the iterator up before the candidate at `j`: no closer peer is
/// to be contacted, and the closer ones that answered are not enough.
pub open spec fn is_clear(peers: ClosestPeers, j: int, now: Instant) -> bool {
    &&& forall|h: int| 0 <= h < j ==> !((#[trigger] peers.candidates[h]).state is NotContacted)
    &&& forall|m: int| 0 <= m < j ==> !#[trigger] is_enough(peers, m, now)
}

/// Whether the candidates before `j` that are late count as unresponsive now, and all
/// other candidates but the one at `j` are as they were.
pub open spec fn is_updated(
    peers: ClosestPeers,
    after: Seq<Candidate>,
    j: int,
    now: Instant,
) -> bool {
    &&& after.len() == peers.candidates.len()
    &&& forall|h: int|
        0 <= h < after.len() && h != j ==> #[trigger] after[h] == if h < j && is_late(
            peers,
            peers.candidates[h],
            now,
        ) {
            Candidate { key: peers.candidates[h].key, state: ContactState::Unresponsive }
        } else {
            peers.candidates[h]
        }
}

/// What comes of asking an iterator that has not finished.
pub open spec fn is_answer(
    peers: ClosestPeers,
    now: Instant,
    after: ClosestPeers,
    state: PeersIterState,
) -> bool {
    let full = count_waiting(peers.candidates) >= room(peers);
    let n = peers.candidates.len() as int;
    &&& after.config == peers.config
    &&& after.target == peers.target
    &&& match state {
        // The closest peer that was not contacted is contacted now.
        PeersIterState::Waiting(Some(peer)) => {
            &&& !full
            &&& after.headway == peers.headway
            &&& exists|j: int|
                {
                    &&& 0 <= j < n
                    &&& is_clear(peers, j, now)
                    &&& is_updated(peers, after.candidates, j, now)
                    &&& (#[trigger] peers.candidates[j]).state is NotContacted
                    &&& peers.candidates[j].key.preimage == peer
                    &&& after.candidates[j].key == peers.candidates[j].key
                    &&& after.candidates[j].state == ContactState::Waiting(now)
                }
        },
        // There is no room, and a peer is to be contacted or waited for.
        PeersIterState::WaitingAtCapacity => {
            &&& full
            &&& after.headway == peers.headway
            &&& exists|j: int|
                {
                    &&& 0 <= j < n
                    &&& is_clear(peers, j, now)
                    &&& is_updated(peers, after.candidates, j, now)
                    &&& after.candidates[j] == peers.candidates[j]
                    &&& (#[trigger] peers.candidates[j]).state is NotContacted || is_due(
                        peers,
                        peers.candidates[j],
                        now,
                    )
                }
        },
        // All peers were contacted, and one of them is waited for.
        PeersIterState::Waiting(None) => {
            &&& !full
            &&& after.headway == peers.headway
            &&& is_clear(peers, n, now)
            &&& is_updated(peers, after.candidates, n, now)
            &&& exists|k: int| 0 <= k < n && is_due(peers, #[trigger] peers.candidates[k], now)
        },
        // Enough peers answered, or all were contacted and none is waited for.
        PeersIterState::Finished => {
            &&& after.headway == Headway::Finished
            &&& {
                ||| exists|m: int|
                    {
                        &&& #[trigger] is_enough(peers, m, now)
                        &&& is_clear(peers, m, now)
                        &&& is_updated(peers, after.candidates, m, now)
                        &&& after.candidates[m] == peers.candidates[m]
                    }
                ||| {
                    &&& is_clear(peers, n, now)
                    &&& is_updated(peers, after.candidates, n, now)
                    &&& forall|k: int|
                        0 <= k < n ==> !is_due(peers, #[trigger] peers.candidates[k], now)
                }
            }
        },
    }
}

/// What holds of a scan that has come to the candidate at `i`.
spec fn scanned(
    peers: ClosestPeers,
    p: ClosestPeers,
    now: Instant,
    full: bool,
    i: int,
    successes: Option<nat>,
) -> bool {
    &&& p.config == peers.config
    &&& p.target == peers.target
    &&& p.headway == peers.headway
    &&& peers.headway != Headway::Finished
    &&& 0 <= i <= peers.candidates.len()
    &&& is_clear(peers, i, now)
    &&& p.candidates.len() == peers.candidates.len()
    &&& forall|h: int|
        0 <= h < p.candidates.len() ==> #[trigger] p.candidates[h] == if h < i && is_late(
            peers,
            peers.candidates[h],
            now,
        ) {
            Candidate { key: peers.candidates[h].key, state: ContactState::Unresponsive }
        } else {
            peers.candidates[h]
        }
    &&& full ==> forall|h: int|
        0 <= h < i ==> !is_due(peers, #[trigger] peers.candidates[h], now)
    &&& match successes {
        Some(n) => {
            &&& n == answering(peers.candidates.take(i)).len()
            &&& forall|h: int| 0 <= h < i ==> !is_due(peers, #[trigger] peers.candidates[h], now)
        },
        None => exists|h: int| 0 <= h < i && is_due(peers, #[trigger] peers.candidates[h], now),
    }
}

proof fn answering_grows(candidates: Seq<Candidate>, i: int)
    requires
        0 <= i < candidates.len(),
    ensures
        answering(candidates.take(i + 1)).len() == answering(candidates.take(i)).len()
            + if candidates[i].state is Succeeded {
            1nat
        } else {
            0nat
        },
{
    broadcast use Seq::lemma_filter_push;

    assert(candidates.take(i + 1) =~= candidates.take(i).push(candidates[i]));
}

proof fn waiting_exists(candidates: Seq<Candidate>)
    ensures
        count_waiting(candidates) > 0 <==> exists|k: int|
            0 <= k < candidates.len() && (#[trigger] candidates[k]).state is Waiting,
    decreases candidates.len(),
{
    if candidates.len() > 0 {
        let init = candidates.drop_last();
        waiting_exists(init);
        assert(candidates[candidates.len() - 1] == candidates.last());
        if exists|k: int|
            0 <= k < candidates.len() && (#[trigger] candidates[k]).state is Waiting {
            let k = choose|k: int|
                0 <= k < candidates.len() && (#[trigger] candidates[k]).state is Waiting;
            if k < init.len() {
                assert(init[k] == candidates[k]);
            }
        }
        if count_waiting(init) > 0 {
            let k = choose|k: int| 0 <= k < init.len() && (#[trigger] init[k]).state is Waiting;
            assert(candidates[k] == init[k]);
        }
    }
}

proof fn still_clear(peers: ClosestPeers, i: int, now: Instant)
    requires
        0 <= i < peers.candidates.len(),
        is_clear(peers, i, now),
        !(peers.candidates[i].state is NotContacted),
        !is_enough(peers, i, now),
    ensures
        is_clear(peers, i + 1, now),
{
}

proof fn scan_answers(
    peers: ClosestPeers,
    p: ClosestPeers,
    now: Instant,
    i: int,
    successes: Option<nat>,
)
    requires
        scanned(
            peers,
            p,
            now,
            count_waiting(peers.candidates) >= room(peers),
            i,
            successes,
        ),
    ensures
        ({
            let full = count_waiting(peers.candidates) >= room(peers);
            let (after, state) = p.scan(now, full, i, successes);
            is_answer(peers, now, after, state)
        }),
    decreases peers.candidates.len() - i,
{
    let full = count_waiting(peers.candidates) >= room(peers);
    let n = peers.candidates.len() as int;
    let (after, state) = p.scan(now, full, i, successes);
    if i == n {
        waiting_exists(p.candidates);
        if count_waiting(p.candidates) > 0 {
            let k = choose|k: int|
                0 <= k < p.candidates.len() && (#[trigger] p.candidates[k]).state is Waiting;
            assert(is_due(peers, peers.candidates[k], now));
        } else {
            assert forall|k: int| 0 <= k < n implies !is_due(
                peers,
                #[trigger] peers.candidates[k],
                now,
            ) by {
                assert(p.candidates[k].key == peers.candidates[k].key);
            }
        }
        assert(is_updated(peers, after.candidates, n, now));
    } else {
        let c = peers.candidates[i];
        assert(p.candidates[i] == c);
        answering_grows(peers.candidates, i);
        match c.state {
            ContactState::Waiting(since) => {
                still_clear(peers, i, now);
                if is_late(peers, c, now) {
                    let late = p.with_state(i, ContactState::Unresponsive);
                    assert(scanned(peers, late, now, full, i + 1, successes));
                    scan_answers(peers, late, now, i + 1, successes);
                } else if full {
                    assert(is_updated(peers, after.candidates, i, now));
                } else {
                    assert(scanned(peers, p, now, full, i + 1, None));
                    scan_answers(peers, p, now, i + 1, None);
                }
            },
            ContactState::Succeeded => {
                match successes {
                    Some(m) => {
                        if m + 1 >= peers.config.num_results {
                            assert(is_enough(peers, i, now));
                            assert(is_updated(peers, after.candidates, i, now));
                        } else {
                            still_clear(peers, i, now);
                            scan_answers(peers, p, now, i + 1, Some(m + 1));
                        }
                    },
                    None => {
                        still_clear(peers, i, now);
                        scan_answers(peers, p, now, i + 1, None);
                    },
                }
            },
            ContactState::NotContacted => {
                assert(is_updated(peers, after.candidates, i, now));
            },
            _ => {
                still_clear(peers, i, now);
                scan_answers(peers, p, now, i + 1, successes);
            },
        }
    }
}

/// An iterator that has not finished asks for the closest peer that was not contacted, if
/// there is room for another request; it is at capacity if there is none; and it finishes
/// when enough of the closest peers answered, or when nothing is left to contact or to wait
/// for. Peers that are late count as unresponsive.
pub proof fn iterator_answers(peers: ClosestPeers, now: Instant)
    requires
        peers.headway != Headway::Finished,
    ensures
        is_answer(peers, now, peers.next(now).0, peers.next(now).1),
{
    assert(peers.candidates.take(0) =~= Seq::empty());
    assert(answering(Seq::empty()).len() == 0) by {
        reveal(Seq::filter);
    }
    assert(peers.at_capacity() == (count_waiting(peers.candidates) >= room(peers)));
    scan_answers(peers, peers, now, 0, Some(0));
}

} // verus!
