//! What holds of every iterator over a fixed set of peers.

use vstd::prelude::*;

use crate::peer::PeerId;
use crate::query::peers::fixed::{
    answered, contact_is_first, contact_of, count_in, fresh_part, FixedPeers, PeerState,
};
use crate::query::peers::PeersIterState;

verus! {

/// Whether the peer was contacted.
pub open spec fn was_contacted(contacted: Seq<(PeerId, PeerState)>, peer: PeerId) -> bool {
    exists|i: int| 0 <= i < contacted.len() && (#[trigger] contacted[i]).0 == peer
}

/// The number of peers that are waited for is that of the contacts without a reply.
pub proof fn waiting_are_counted(contacted: Seq<(PeerId, PeerState)>, state: PeerState)
    ensures
        count_in(contacted, state) == contacted.filter(
            |entry: (PeerId, PeerState)| entry.1 == state,
        ).len(),
    decreases contacted.len(),
{
    broadcast use Seq::lemma_filter_push;

    let p = |entry: (PeerId, PeerState)| entry.1 == state;
    if contacted.len() > 0 {
        waiting_are_counted(contacted.drop_last(), state);
        assert(contacted =~= contacted.drop_last().push(contacted.last()));
    } else {
        assert(contacted.filter(p).len() == 0) by {
            reveal(Seq::filter);
        }
    }
}

/// The result holds exactly the peers that answered, in the order in which they were
/// contacted.
pub proof fn result_is_complete(contacted: Seq<(PeerId, PeerState)>)
    ensures
        answered(contacted) == contacted.filter(
            |entry: (PeerId, PeerState)| entry.1 == PeerState::Succeeded,
        ).map_values(|entry: (PeerId, PeerState)| entry.0),
    decreases contacted.len(),
{
    broadcast use Seq::lemma_filter_push;

    let p = |entry: (PeerId, PeerState)| entry.1 == PeerState::Succeeded;
    let f = |entry: (PeerId, PeerState)| entry.0;
    if contacted.len() > 0 {
        let init = contacted.drop_last();
        result_is_complete(init);
        assert(contacted =~= init.push(contacted.last()));
        assert(answered(contacted) =~= contacted.filter(p).map_values(f));
    } else {
        assert(contacted.filter(p).len() == 0) by {
            reveal(Seq::filter);
        }
        assert(answered(contacted) =~= contacted.filter(p).map_values(f));
    }
}

/// A reply of a peer that is waited for is noted, of that peer alone.
pub proof fn expected_reply_is_noted(
    peers: FixedPeers,
    peer: PeerId,
    state: PeerState,
    i: int,
)
    requires
        !peers.finished,
        0 <= i < peers.contacted.len(),
        peers.contacted[i] == (peer, PeerState::Waiting),
        forall|j: int| 0 <= j < i ==> (#[trigger] peers.contacted[j]).0 != peer,
    ensures
        ({
            let (after, updated) = peers.on_reply(peer, state);
            &&& updated
            &&& after.contacted.len() == peers.contacted.len()
            &&& after.contacted[i] == (peer, state)
            &&& forall|j: int|
                0 <= j < peers.contacted.len() && j != i ==> #[trigger] after.contacted[j]
                    == peers.contacted[j]
            &&& after.backlog == peers.backlog
            &&& after.parallelism == peers.parallelism
            &&& !after.finished
        }),
{
    contact_is_first(peers.contacted, peer);
}

/// A reply of a peer that is not waited for changes nothing, nor does any after the end.
pub proof fn other_reply_is_ignored(peers: FixedPeers, peer: PeerId, state: PeerState)
    requires
        peers.finished || forall|i: int|
            0 <= i < peers.contacted.len() ==> #[trigger] peers.contacted[i] != (
                peer,
                PeerState::Waiting,
            ),
    ensures
        peers.on_reply(peer, state) == (peers, false),
        !peers.finished ==> !peers.is_waiting(peer),
{
    contact_is_first(peers.contacted, peer);
    if !peers.finished && peers.is_waiting(peer) {
        let i = contact_of(peers.contacted, peer)->0;
        assert(peers.contacted[i] == (peer, PeerState::Waiting));
    }
}

/// A peer is waited for if its contact has no reply.
pub proof fn contact_without_reply_is_waiting(peers: FixedPeers, peer: PeerId, i: int)
    requires
        0 <= i < peers.contacted.len(),
        peers.contacted[i].0 == peer,
        forall|j: int| 0 <= j < i ==> (#[trigger] peers.contacted[j]).0 != peer,
    ensures
        peers.is_waiting(peer) <==> peers.contacted[i].1 == PeerState::Waiting,
{
    contact_is_first(peers.contacted, peer);
}

/// A peer that was not contacted is not waited for.
pub proof fn unknown_peer_is_not_waiting(peers: FixedPeers, peer: PeerId)
    requires
        !was_contacted(peers.contacted, peer),
    ensures
        !peers.is_waiting(peer),
{
    contact_is_first(peers.contacted, peer);
    if peers.is_waiting(peer) {
        let i = contact_of(peers.contacted, peer)->0;
        assert(peers.contacted[i].0 == peer);
    }
}

proof fn fresh_part_from(contacted: Seq<(PeerId, PeerState)>, backlog: Seq<PeerId>, i: int)
    requires
        0 <= i <= backlog.len(),
        forall|j: int| 0 <= j < i ==> was_contacted(contacted, #[trigger] backlog[j]),
        i < backlog.len() ==> !was_contacted(contacted, backlog[i]),
    ensures
        fresh_part(contacted, backlog) == backlog.skip(i),
    decreases i,
{
    if i == 0 {
        assert(backlog.skip(0) =~= backlog);
        if backlog.len() > 0 {
            contact_is_first(contacted, backlog[0]);
            if contact_of(contacted, backlog[0]) is Some {
                let k = contact_of(contacted, backlog[0])->0;
                assert(contacted[k].0 == backlog[0]);
            }
        }
    } else {
        let rest = backlog.skip(1);
        assert(was_contacted(contacted, backlog[0]));
        contact_is_first(contacted, backlog[0]);
        assert(contact_of(contacted, backlog[0]) is Some);
        assert forall|j: int| 0 <= j < i - 1 implies was_contacted(
            contacted,
            #[trigger] rest[j],
        ) by {
            assert(rest[j] == backlog[j + 1]);
        }
        fresh_part_from(contacted, rest, i - 1);
        assert(rest.skip(i - 1) =~= backlog.skip(i));
    }
}

/// With room for another request, the first peer of the backlog that was not contacted
/// comes next; those before it are passed over, and those behind it are left.
pub proof fn first_fresh_peer_is_contacted(peers: FixedPeers, i: int)
    requires
        !peers.finished,
        count_in(peers.contacted, PeerState::Waiting) < peers.parallelism,
        0 <= i < peers.backlog.len(),
        forall|j: int| 0 <= j < i ==> was_contacted(peers.contacted, #[trigger] peers.backlog[j]),
        !was_contacted(peers.contacted, peers.backlog[i]),
    ensures
        ({
            let (after, state) = peers.next();
            &&& state == PeersIterState::Waiting(Some(peers.backlog[i]))
            &&& after.contacted == peers.contacted.push((peers.backlog[i], PeerState::Waiting))
            &&& after.backlog == peers.backlog.skip(i + 1)
            &&& after.parallelism == peers.parallelism
            &&& !after.finished
        }),
{
    fresh_part_from(peers.contacted, peers.backlog, i);
    assert(peers.backlog.skip(i).skip(1) =~= peers.backlog.skip(i + 1));
}

/// Without room for another request nothing changes.
pub proof fn full_iterator_waits(peers: FixedPeers)
    requires
        !peers.finished,
        count_in(peers.contacted, PeerState::Waiting) >= peers.parallelism,
    ensures
        peers.next() == (peers, PeersIterState::WaitingAtCapacity),
{
}

/// When all peers were contacted, the iterator waits for replies as long as one is due,
/// and is finished then.
pub proof fn contacted_all(peers: FixedPeers)
    requires
        !peers.finished,
        count_in(peers.contacted, PeerState::Waiting) < peers.parallelism,
        forall|j: int|
            0 <= j < peers.backlog.len() ==> was_contacted(
                peers.contacted,
                #[trigger] peers.backlog[j],
            ),
    ensures
        ({
            let (after, state) = peers.next();
            let due = count_in(peers.contacted, PeerState::Waiting);
            &&& due > 0 ==> state == PeersIterState::Waiting(None) && !after.finished
            &&& due == 0 ==> state == PeersIterState::Finished && after.finished
            &&& after.contacted == peers.contacted
            &&& after.backlog.len() == 0
            &&& after.parallelism == peers.parallelism
        }),
{
    fresh_part_from(peers.contacted, peers.backlog, peers.backlog.len() as int);
}

/// A stopped iterator is finished and keeps its contacts; a finished one stays as it is.
pub proof fn stopped_is_finished(peers: FixedPeers)
    ensures
        peers.finish().finished,
        peers.finish().contacted == peers.contacted,
        peers.finish().backlog == peers.backlog,
        peers.finish().parallelism == peers.parallelism,
        peers.finished ==> peers.next() == (peers, PeersIterState::Finished),
{
}

} // verus!
