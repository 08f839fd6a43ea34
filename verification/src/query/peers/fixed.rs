//! A peer iterator that contacts a fixed set of peers.

use vstd::prelude::*;

use crate::peer::PeerId;
use crate::query::peers::PeersIterState;

verus! {

/// What became of a peer that was contacted.
#[derive(Debug, Clone, Copy, PartialEq, Eq, Structural)]
pub enum PeerState {
    /// The iterator is waiting for a result of the peer.
    Waiting,
    /// The attempt to contact the peer failed.
    Failed,
    /// The peer answered.
    Succeeded,
}

/// The contents of a [`FixedPeersIter`].
pub struct FixedPeers {
    /// The number of peers that may be waited for at the same time.
    pub parallelism: nat,
    /// The peers that were contacted, in the order in which that happened.
    pub contacted: Seq<(PeerId, PeerState)>,
    /// The peers that are still to be contacted.
    pub backlog: Seq<PeerId>,
    /// Whether the iterator has finished.
    pub finished: bool,
}

/// The number of peers in the given state.
pub open spec fn count_in(contacted: Seq<(PeerId, PeerState)>, state: PeerState) -> nat
    decreases contacted.len(),
{
    if contacted.len() == 0 {
        0
    } else {
        count_in(contacted.drop_last(), state) + if contacted.last().1 == state {
            1nat
        } else {
            0nat
        }
    }
}

/// Where a peer stands among those that were contacted.
pub open spec fn contact_of(contacted: Seq<(PeerId, PeerState)>, peer: PeerId) -> Option<int>
    decreases contacted.len(),
{
    if contacted.len() == 0 {
        None
    } else {
        match contact_of(contacted.drop_last(), peer) {
            Some(i) => Some(i),
            None => if contacted.last().0 == peer {
                Some(contacted.len() - 1)
            } else {
                None
            },
        }
    }
}

/// What is left of the backlog from the first peer on that was not contacted.
pub open spec fn fresh_part(
    contacted: Seq<(PeerId, PeerState)>,
    backlog: Seq<PeerId>,
) -> Seq<PeerId>
    decreases backlog.len(),
{
    if backlog.len() > 0 && contact_of(contacted, backlog[0]) is Some {
        fresh_part(contacted, backlog.skip(1))
    } else {
        backlog
    }
}

/// The peers that answered.
pub open spec fn answered(contacted: Seq<(PeerId, PeerState)>) -> Seq<PeerId>
    decreases contacted.len(),
{
    if contacted.len() == 0 {
        Seq::empty()
    } else if contacted.last().1 == PeerState::Succeeded {
        answered(contacted.drop_last()).push(contacted.last().0)
    } else {
        answered(contacted.drop_last())
    }
}

impl FixedPeers {
    /// The number of peers that are waited for.
    pub open spec fn num_waiting(self) -> nat {
        count_in(self.contacted, PeerState::Waiting)
    }

    /// Whether a result of the peer is waited for.
    pub open spec fn is_waiting(self, peer: PeerId) -> bool {
        match contact_of(self.contacted, peer) {
            Some(i) => self.contacted[i].1 == PeerState::Waiting,
            None => false,
        }
    }

    /// What follows when the peer that is waited for turns out to be in the
    /// given state, and whether there is such a peer.
    pub open spec fn on_reply(self, peer: PeerId, state: PeerState) -> (FixedPeers, bool) {
        if !self.finished && self.is_waiting(peer) {
            let i = contact_of(self.contacted, peer)->0;
            (FixedPeers { contacted: self.contacted.update(i, (peer, state)), ..self }, true)
        } else {
            (self, false)
        }
    }

    /// What follows when the iterator is asked for a peer to contact, and its
    /// answer.
    pub open spec fn next(self) -> (FixedPeers, PeersIterState) {
        let fresh = fresh_part(self.contacted, self.backlog);
        if self.finished {
            (self, PeersIterState::Finished)
        } else if self.num_waiting() >= self.parallelism {
            (self, PeersIterState::WaitingAtCapacity)
        } else if fresh.len() > 0 {
            (
                FixedPeers {
                    contacted: self.contacted.push((fresh[0], PeerState::Waiting)),
                    backlog: fresh.skip(1),
                    ..self
                },
                PeersIterState::Waiting(Some(fresh[0])),
            )
        } else if self.num_waiting() == 0 {
            (FixedPeers { backlog: fresh, finished: true, ..self }, PeersIterState::Finished)
        } else {
            (FixedPeers { backlog: fresh, ..self }, PeersIterState::Waiting(None))
        }
    }

    /// What follows when the iterator is stopped.
    pub open spec fn finish(self) -> FixedPeers {
        FixedPeers { finished: true, ..self }
    }
}

/// What [`contact_of`] finds is the first contact with the peer.
pub proof fn contact_is_first(contacted: Seq<(PeerId, PeerState)>, peer: PeerId)
    ensures
        match contact_of(contacted, peer) {
            Some(i) => {
                &&& 0 <= i < contacted.len()
                &&& contacted[i].0 == peer
                &&& forall|j: int| 0 <= j < i ==> (#[trigger] contacted[j]).0 != peer
            },
            None => forall|j: int| 0 <= j < contacted.len() ==> (#[trigger] contacted[j]).0 != peer,
        },
    decreases contacted.len(),
{
    if contacted.len() > 0 {
        let init = contacted.drop_last();
        contact_is_first(init, peer);
        assert forall|j: int| 0 <= j < init.len() implies init[j] == #[trigger] contacted[j] by {}
        if contact_of(init, peer) is None {
            assert forall|j: int| 0 <= j < init.len() implies (#[trigger] contacted[j]).0
                != peer by {
                assert(init[j] == contacted[j]);
            }
        }
    }
}

pub(crate) proof fn count_in_update(
    contacted: Seq<(PeerId, PeerState)>,
    i: int,
    entry: (PeerId, PeerState),
    state: PeerState,
)
    requires
        0 <= i < contacted.len(),
    ensures
        count_in(contacted.update(i, entry), state) + if contacted[i].1 == state {
            1int
        } else {
            0
        } == count_in(contacted, state) + if entry.1 == state {
            1int
        } else {
            0
        },
    decreases contacted.len(),
{
    let changed = contacted.update(i, entry);
    if i < contacted.len() - 1 {
        count_in_update(contacted.drop_last(), i, entry, state);
        assert(changed.drop_last() =~= contacted.drop_last().update(i, entry));
    } else {
        assert(changed.drop_last() =~= contacted.drop_last());
    }
}

/// A reply to a request that was open closes that request; any other reply
/// changes nothing.
pub proof fn reply_closes_request(peers: FixedPeers, peer: PeerId, state: PeerState)
    requires
        state != PeerState::Waiting,
    ensures
        ({
            let (after, updated) = peers.on_reply(peer, state);
            &&& updated ==> after.num_waiting() + 1 == peers.num_waiting()
            &&& !updated ==> after == peers
        }),
{
    contact_is_first(peers.contacted, peer);
    if !peers.finished && peers.is_waiting(peer) {
        let i = contact_of(peers.contacted, peer)->0;
        count_in_update(peers.contacted, i, (peer, state), PeerState::Waiting);
    }
}

/// A peer to contact comes with one more open request; any other answer leaves
/// the open requests as they are.
pub proof fn contact_opens_request(peers: FixedPeers)
    ensures
        peers.next().0.num_waiting() == peers.num_waiting()
            + if peers.next().1 matches PeersIterState::Waiting(Some(_)) {
            1nat
        } else {
            0nat
        },
{
    let fresh = fresh_part(peers.contacted, peers.backlog);
    if fresh.len() > 0 {
        let more = peers.contacted.push((fresh[0], PeerState::Waiting));
        assert(more.drop_last() =~= peers.contacted);
    }
}

/// A peer to contact is taken from the backlog, which never grows.
pub proof fn contact_takes_from_backlog(peers: FixedPeers)
    ensures
        peers.next().0.backlog.len() + if peers.next().1 matches PeersIterState::Waiting(Some(_)) {
            1nat
        } else {
            0nat
        } <= peers.backlog.len(),
{
    fresh_part_is_part(peers.contacted, peers.backlog);
}

proof fn fresh_part_is_part(contacted: Seq<(PeerId, PeerState)>, backlog: Seq<PeerId>)
    ensures
        fresh_part(contacted, backlog).len() <= backlog.len(),
    decreases backlog.len(),
{
    if backlog.len() > 0 && contact_of(contacted, backlog[0]) is Some {
        fresh_part_is_part(contacted, backlog.skip(1));
    }
}

/// A peer to contact was not contacted before.
pub proof fn contact_is_new(peers: FixedPeers)
    ensures
        peers.next().1 matches PeersIterState::Waiting(Some(peer)) ==> {
            &&& forall|i: int|
                0 <= i < peers.contacted.len() ==> (#[trigger] peers.contacted[i]).0 != peer
            &&& peers.next().0.contacted == peers.contacted.push((peer, PeerState::Waiting))
            &&& peers.backlog.contains(peer)
        },
{
    fresh_part_is_new(peers.contacted, peers.backlog);
    let fresh = fresh_part(peers.contacted, peers.backlog);
    if fresh.len() > 0 {
        contact_is_first(peers.contacted, fresh[0]);
    }
}

/// The iterator waits for a result of the peer that it asks to contact.
pub proof fn contact_is_waited_for(peers: FixedPeers)
    ensures
        peers.next().1 matches PeersIterState::Waiting(Some(peer)) ==> peers.next().0.is_waiting(
            peer,
        ),
{
    contact_is_new(peers);
    if let PeersIterState::Waiting(Some(peer)) = peers.next().1 {
        contact_is_first(peers.contacted, peer);
        let more = peers.contacted.push((peer, PeerState::Waiting));
        assert(more.drop_last() =~= peers.contacted);
    }
}

proof fn fresh_part_is_new(contacted: Seq<(PeerId, PeerState)>, backlog: Seq<PeerId>)
    ensures
        ({
            let fresh = fresh_part(contacted, backlog);
            fresh.len() > 0 ==> contact_of(contacted, fresh[0]) is None && backlog.contains(
                fresh[0],
            )
        }),
    decreases backlog.len(),
{
    if backlog.len() > 0 && contact_of(contacted, backlog[0]) is Some {
        let rest = backlog.skip(1);
        fresh_part_is_new(contacted, rest);
        let fresh = fresh_part(contacted, rest);
        if fresh.len() > 0 {
            let i = choose|i: int| 0 <= i < rest.len() && rest[i] == fresh[0];
            assert(backlog[i + 1] == fresh[0]);
        }
    } else if backlog.len() > 0 {
        assert(backlog[0] == backlog[0]);
    }
}

/// The result holds only peers that answered.
pub proof fn result_is_answered(contacted: Seq<(PeerId, PeerState)>, n: int)
    requires
        0 <= n < answered(contacted).len(),
    ensures
        contacted.contains((answered(contacted)[n], PeerState::Succeeded)),
    decreases contacted.len(),
{
    let init = contacted.drop_last();
    if n < answered(init).len() {
        result_is_answered(init, n);
        let entry = (answered(init)[n], PeerState::Succeeded);
        let i = choose|i: int| 0 <= i < init.len() && init[i] == entry;
        assert(contacted[i] == entry);
    } else {
        assert(contacted[contacted.len() - 1] == contacted.last());
    }
}

/// A peer iterator that contacts each peer of a fixed list once, as many of
/// them at the same time as it may.
#[derive(Debug)]
pub struct FixedPeersIter {
    parallelism: usize,
    contacted: Vec<(PeerId, PeerState)>,
    peers: Vec<PeerId>,
    /// The position in `peers` of the first peer that is still to be contacted.
    pos: usize,
    finished: bool,
}

impl View for FixedPeersIter {
    type V = FixedPeers;

    closed spec fn view(&self) -> FixedPeers {
        FixedPeers {
            parallelism: self.parallelism as nat,
            contacted: self.contacted@,
            backlog: if self.pos <= self.peers@.len() {
                self.peers@.skip(self.pos as int)
            } else {
                Seq::empty()
            },
            finished: self.finished,
        }
    }
}

impl FixedPeersIter {
    /// Creates an iterator over the given peers.
    pub fn new(peers: Vec<PeerId>, parallelism: usize) -> (r: FixedPeersIter)
        ensures
            r@ == (FixedPeers {
                parallelism: parallelism as nat,
                contacted: Seq::empty(),
                backlog: peers@,
                finished: false,
            }),
    {
        assert(peers@.skip(0) =~= peers@);
        FixedPeersIter { parallelism, contacted: Vec::new(), peers, pos: 0, finished: false }
    }

    /// The position of a peer among those that were contacted.
    fn find(&self, peer: &PeerId) -> (r: Option<usize>)
        ensures
            match r {
                Some(i) => i < self.contacted@.len() && contact_of(self.contacted@, *peer) == Some(
                    i as int,
                ),
                None => contact_of(self.contacted@, *peer) is None,
            },
    {
        let mut i: usize = 0;
        while i < self.contacted.len()
            invariant
                i <= self.contacted@.len(),
                forall|j: int| 0 <= j < i ==> (#[trigger] self.contacted@[j]).0 != *peer,
            decreases self.contacted@.len() - i,
        {
            if self.contacted[i].0.same(peer) {
                proof {
                    contact_is_first(self.contacted@, *peer);
                    assert(self.contacted@[i as int].0 == *peer);
                }
                return Some(i);
            }
            i = i + 1;
        }
        proof {
            contact_is_first(self.contacted@, *peer);
        }
        None
    }

    /// The number of peers that are waited for.
    fn count_waiting(&self) -> (n: usize)
        ensures
            n == self@.num_waiting(),
    {
        let mut n: usize = 0;
        let mut i: usize = 0;
        assert(self.contacted@.take(0) =~= Seq::empty());
        while i < self.contacted.len()
            invariant
                i <= self.contacted@.len(),
                n <= i,
                n == count_in(self.contacted@.take(i as int), PeerState::Waiting),
            decreases self.contacted@.len() - i,
        {
            assert(self.contacted@.take(i + 1).drop_last() =~= self.contacted@.take(i as int));
            if let PeerState::Waiting = self.contacted[i].1 {
                n = n + 1;
            }
            i = i + 1;
        }
        assert(self.contacted@.take(i as int) =~= self.contacted@);
        n
    }

    /// Notes what became of a peer that is waited for.
    fn on_reply(&mut self, peer: &PeerId, state: PeerState) -> (updated: bool)
        ensures
            (final(self)@, updated) == old(self)@.on_reply(*peer, state),
    {
        if self.finished {
            return false;
        }
        proof {
            contact_is_first(self.contacted@, *peer);
        }
        match self.find(peer) {
            Some(i) => match self.contacted[i].1 {
                PeerState::Waiting => {
                    self.contacted.set(i, (*peer, state));
                    true
                },
                _ => false,
            },
            None => false,
        }
    }

    /// Notes that a peer answered. Returns whether it was waited for.
    pub fn on_success(&mut self, peer: &PeerId) -> (updated: bool)
        ensures
            (final(self)@, updated) == old(self)@.on_reply(*peer, PeerState::Succeeded),
    {
        self.on_reply(peer, PeerState::Succeeded)
    }

    /// Notes that the attempt to contact a peer failed. Returns whether it was
    /// waited for.
    pub fn on_failure(&mut self, peer: &PeerId) -> (updated: bool)
        ensures
            (final(self)@, updated) == old(self)@.on_reply(*peer, PeerState::Failed),
    {
        self.on_reply(peer, PeerState::Failed)
    }

    /// Checks whether a result of the peer is waited for.
    pub fn is_waiting(&self, peer: &PeerId) -> (b: bool)
        ensures
            b == self@.is_waiting(*peer),
    {
        match self.find(peer) {
            Some(i) => match self.contacted[i].1 {
                PeerState::Waiting => true,
                _ => false,
            },
            None => false,
        }
    }

    /// Asks for a peer to contact.
    pub fn next(&mut self) -> (r: PeersIterState)
        ensures
            (final(self)@, r) == old(self)@.next(),
    {
        if self.finished {
            return PeersIterState::Finished;
        }
        let num_waiting = self.count_waiting();
        if num_waiting >= self.parallelism {
            return PeersIterState::WaitingAtCapacity;
        }
        while self.pos < self.peers.len()
            invariant
                self.contacted == old(self).contacted,
                self.peers == old(self).peers,
                self.parallelism == old(self).parallelism,
                self.finished == old(self).finished,
                fresh_part(self@.contacted, self@.backlog) == fresh_part(
                    old(self)@.contacted,
                    old(self)@.backlog,
                ),
                !old(self).finished,
                old(self)@.num_waiting() < self.parallelism,
            decreases self.peers@.len() - self.pos,
        {
            let ghost before = self@.backlog;
            let peer = self.peers[self.pos];
            self.pos = self.pos + 1;
            assert(self@.backlog =~= before.skip(1));
            if self.find(&peer).is_none() {
                self.contacted.push((peer, PeerState::Waiting));
                return PeersIterState::Waiting(Some(peer));
            }
        }
        assert(self@.backlog =~= Seq::empty());
        assert(old(self)@.next().0.backlog =~= self@.backlog);
        if num_waiting == 0 {
            self.finished = true;
            PeersIterState::Finished
        } else {
            PeersIterState::Waiting(None)
        }
    }

    /// Stops the iterator.
    pub fn finish(&mut self)
        ensures
            final(self)@ == old(self)@.finish(),
    {
        self.finished = true;
    }

    /// Checks whether the iterator has finished.
    pub fn is_finished(&self) -> (b: bool)
        ensures
            b == self@.finished,
    {
        self.finished
    }

    /// Consumes the iterator for the peers that answered.
    pub fn into_result(self) -> (r: Vec<PeerId>)
        ensures
            r@ == answered(self@.contacted),
    {
        let mut r: Vec<PeerId> = Vec::new();
        let mut i: usize = 0;
        assert(self.contacted@.take(0) =~= Seq::empty());
        while i < self.contacted.len()
            invariant
                i <= self.contacted@.len(),
                r@ == answered(self.contacted@.take(i as int)),
            decreases self.contacted@.len() - i,
        {
            assert(self.contacted@.take(i + 1).drop_last() =~= self.contacted@.take(i as int));
            if let PeerState::Succeeded = self.contacted[i].1 {
                r.push(self.contacted[i].0);
            }
            i = i + 1;
        }
        assert(self.contacted@.take(i as int) =~= self.contacted@);
        r
    }
}

} // verus!
