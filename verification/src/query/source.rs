//! The peer selection strategies that can be used by queries.

use vstd::prelude::*;

use crate::kbucket::key::{Key, KeyBytes};
use crate::peer::PeerId;
use crate::query::peers::closest::{
    count_open, failure_closes_request, success_closes_request, ClosestPeers, ClosestPeersIter,
    Headway,
};
use crate::query::peers::fixed::{
    answered, reply_closes_request, FixedPeers, FixedPeersIter, PeerState,
};
use crate::query::peers::PeersIterState;
use crate::query::peers::{closest, closest_laws, fixed};
use crate::time::Instant;

verus! {

/// The contents of a [`QueryPeerIter`].
pub enum PeerSource {
    /// The contents of an iterator towards the closest peers.
    Closest(ClosestPeers),
    /// The contents of an iterator over a fixed set of peers.
    Fixed(FixedPeers),
}

impl PeerSource {
    /// The number of requests that were not answered so far.
    pub open spec fn open_requests(self) -> nat {
        match self {
            PeerSource::Closest(p) => count_open(p.candidates),
            PeerSource::Fixed(p) => p.num_waiting(),
        }
    }

    /// The number of peers that are left to contact, at most.
    pub open spec fn left(self) -> nat {
        match self {
            PeerSource::Closest(p) => closest::count_left(p.candidates),
            PeerSource::Fixed(p) => p.backlog.len(),
        }
    }

    /// What follows when the attempt to contact a peer failed, and whether its
    /// result was expected.
    pub open spec fn on_failure(self, peer: PeerId) -> (PeerSource, bool) {
        match self {
            PeerSource::Closest(p) => {
                let (after, updated) = p.on_failure(peer);
                (PeerSource::Closest(after), updated)
            },
            PeerSource::Fixed(p) => {
                let (after, updated) = p.on_reply(peer, PeerState::Failed);
                (PeerSource::Fixed(after), updated)
            },
        }
    }

    /// What follows when a peer answered with other peers, and whether its
    /// answer was expected. A fixed set of peers takes no others.
    pub open spec fn on_success(self, peer: PeerId, closer: Seq<Key<PeerId>>) -> (
        PeerSource,
        bool,
    ) {
        match self {
            PeerSource::Closest(p) => {
                let (after, updated) = p.on_success(peer, closer);
                (PeerSource::Closest(after), updated)
            },
            PeerSource::Fixed(p) => {
                let (after, updated) = p.on_reply(peer, PeerState::Succeeded);
                (PeerSource::Fixed(after), updated)
            },
        }
    }

    /// Whether a result of the peer is waited for.
    pub open spec fn is_waiting(self, peer: PeerId) -> bool {
        match self {
            PeerSource::Closest(p) => p.is_waiting(peer),
            PeerSource::Fixed(p) => p.is_waiting(peer),
        }
    }

    /// What follows when the iterator is asked for a peer to contact, and its
    /// answer.
    pub open spec fn next(self, now: Instant) -> (PeerSource, PeersIterState) {
        match self {
            PeerSource::Closest(p) => {
                let (after, state) = p.next(now);
                (PeerSource::Closest(after), state)
            },
            PeerSource::Fixed(p) => {
                let (after, state) = p.next();
                (PeerSource::Fixed(after), state)
            },
        }
    }

    /// What follows when the iterator is stopped.
    pub open spec fn finish(self) -> PeerSource {
        match self {
            PeerSource::Closest(p) => PeerSource::Closest(p.finish()),
            PeerSource::Fixed(p) => PeerSource::Fixed(p.finish()),
        }
    }

    /// Whether the iterator has finished.
    pub open spec fn is_finished(self) -> bool {
        match self {
            PeerSource::Closest(p) => p.headway == Headway::Finished,
            PeerSource::Fixed(p) => p.finished,
        }
    }

    /// Whether the known peers are in order, each with the key that `key_of` gives for
    /// it. Of a fixed set of peers no keys are kept.
    pub open spec fn is_sound(self, key_of: spec_fn(PeerId) -> KeyBytes) -> bool {
        match self {
            PeerSource::Closest(p) => closest_laws::is_sound(p, key_of),
            PeerSource::Fixed(_) => true,
        }
    }

    /// Whether the peer answered.
    pub open spec fn has_answer(self, peer: PeerId) -> bool {
        match self {
            PeerSource::Closest(p) => exists|i: int|
                0 <= i < p.candidates.len() && (#[trigger] p.candidates[i]).state is Succeeded
                    && p.candidates[i].key.preimage == peer,
            PeerSource::Fixed(p) => p.contacted.contains((peer, PeerState::Succeeded)),
        }
    }

    /// The peers that answered.
    pub open spec fn result(self) -> Seq<PeerId> {
        match self {
            PeerSource::Closest(p) => p.result(),
            PeerSource::Fixed(p) => answered(p.contacted),
        }
    }
}

/// A failure of a peer with an open request closes that request; any other
/// changes nothing.
pub proof fn failure_closes(source: PeerSource, peer: PeerId)
    ensures
        ({
            let (after, updated) = source.on_failure(peer);
            &&& updated ==> after.open_requests() + 1 == source.open_requests()
            &&& !updated ==> after == source
        }),
{
    match source {
        PeerSource::Closest(p) => {
            failure_closes_request(p, peer);
        },
        PeerSource::Fixed(p) => {
            reply_closes_request(p, peer, PeerState::Failed);
        },
    }
}

/// An answer of a peer with an open request closes that request; any other
/// changes nothing.
pub proof fn success_closes(source: PeerSource, peer: PeerId, closer: Seq<Key<PeerId>>)
    ensures
        ({
            let (after, updated) = source.on_success(peer, closer);
            &&& updated ==> after.open_requests() + 1 == source.open_requests()
            &&& !updated ==> after == source
        }),
{
    match source {
        PeerSource::Closest(p) => {
            success_closes_request(p, peer, closer);
        },
        PeerSource::Fixed(p) => {
            reply_closes_request(p, peer, PeerState::Succeeded);
        },
    }
}

/// A peer to contact comes with one more open request; any other answer leaves
/// the open requests as they are.
pub proof fn contact_opens(source: PeerSource, now: Instant)
    ensures
        source.next(now).0.open_requests() == source.open_requests() + if source.next(
            now,
        ).1 matches PeersIterState::Waiting(Some(_)) {
            1nat
        } else {
            0nat
        },
{
    match source {
        PeerSource::Closest(p) => {
            closest::contact_opens_request(p, now);
        },
        PeerSource::Fixed(p) => {
            fixed::contact_opens_request(p);
        },
    }
}

/// A peer to contact is one less that is left to contact, and no answer leaves
/// more.
pub proof fn contact_takes(source: PeerSource, now: Instant)
    ensures
        source.next(now).0.left() + if source.next(now).1 matches PeersIterState::Waiting(Some(_)) {
            1nat
        } else {
            0nat
        } <= source.left(),
{
    match source {
        PeerSource::Closest(p) => {
            closest::contact_takes_from_left(p, now);
        },
        PeerSource::Fixed(p) => {
            fixed::contact_takes_from_backlog(p);
        },
    }
}

/// An iterator that says that it has finished has done so.
pub proof fn done_source_is_finished(source: PeerSource, now: Instant)
    ensures
        source.next(now).1 is Finished ==> source.next(now).0.is_finished(),
{
    if let PeerSource::Closest(p) = source {
        closest::done_is_finished(p, now);
    }
}

/// Every operation keeps the known peers in order, each with its key, if the answers
/// hold such keys.
pub proof fn source_stays_sound(
    source: PeerSource,
    peer: PeerId,
    closer: Seq<Key<PeerId>>,
    now: Instant,
    key_of: spec_fn(PeerId) -> KeyBytes,
)
    requires
        source.is_sound(key_of),
        closest_laws::are_keyed(closer, key_of),
    ensures
        source.on_failure(peer).0.is_sound(key_of),
        source.on_success(peer, closer).0.is_sound(key_of),
        source.next(now).0.is_sound(key_of),
        source.finish().is_sound(key_of),
{
    if let PeerSource::Closest(p) = source {
        closest_laws::stays_sound(p, peer, closer, now, key_of);
    }
}

/// The iterator waits for a result of the peer that it asks to contact.
pub proof fn contact_is_awaited(
    source: PeerSource,
    now: Instant,
    key_of: spec_fn(PeerId) -> KeyBytes,
)
    requires
        source.is_sound(key_of),
    ensures
        source.next(now).1 matches PeersIterState::Waiting(Some(peer)) ==> source.next(
            now,
        ).0.is_waiting(peer),
{
    match source {
        PeerSource::Closest(p) => {
            closest_laws::contact_is_waited_for(p, now, key_of);
        },
        PeerSource::Fixed(p) => {
            fixed::contact_is_waited_for(p);
        },
    }
}

/// The result holds only peers that answered.
pub proof fn result_has_answers(source: PeerSource, n: int)
    requires
        0 <= n < source.result().len(),
    ensures
        source.has_answer(source.result()[n]),
{
    match source {
        PeerSource::Closest(p) => {
            closest_laws::result_is_answered(p, n);
        },
        PeerSource::Fixed(p) => {
            fixed::result_is_answered(p.contacted, n);
        },
    }
}

/// The peer selection strategies that can be used by queries.
#[derive(Debug)]
pub enum QueryPeerIter {
    /// Iterates towards the peers closest to a target.
    Closest(ClosestPeersIter),
    /// Contacts a fixed set of peers.
    Fixed(FixedPeersIter),
}

impl View for QueryPeerIter {
    type V = PeerSource;

    open spec fn view(&self) -> PeerSource {
        match self {
            QueryPeerIter::Closest(iter) => PeerSource::Closest(iter@),
            QueryPeerIter::Fixed(iter) => PeerSource::Fixed(iter@),
        }
    }
}

impl QueryPeerIter {
    /// Notes that the attempt to contact a peer failed. Returns whether its
    /// result was expected.
    pub fn on_failure(&mut self, peer: &PeerId) -> (updated: bool)
        ensures
            (final(self)@, updated) == old(self)@.on_failure(*peer),
    {
        match self {
            QueryPeerIter::Closest(iter) => iter.on_failure(peer),
            QueryPeerIter::Fixed(iter) => iter.on_failure(peer),
        }
    }

    /// Notes that a peer answered with other peers. Returns whether its answer
    /// was expected.
    pub fn on_success(&mut self, peer: &PeerId, closer_peers: Vec<Key<PeerId>>) -> (updated: bool)
        ensures
            (final(self)@, updated) == old(self)@.on_success(*peer, closer_peers@),
    {
        match self {
            QueryPeerIter::Closest(iter) => iter.on_success(peer, closer_peers),
            QueryPeerIter::Fixed(iter) => iter.on_success(peer),
        }
    }

    /// Checks whether a result of the peer is waited for.
    pub fn is_waiting(&self, peer: &PeerId) -> (b: bool)
        ensures
            b == self@.is_waiting(*peer),
    {
        match self {
            QueryPeerIter::Closest(iter) => iter.is_waiting(peer),
            QueryPeerIter::Fixed(iter) => iter.is_waiting(peer),
        }
    }

    /// Asks for a peer to contact.
    pub fn next(&mut self, now: Instant) -> (r: PeersIterState)
        ensures
            (final(self)@, r) == old(self)@.next(now),
    {
        match self {
            QueryPeerIter::Closest(iter) => iter.next(now),
            QueryPeerIter::Fixed(iter) => iter.next(),
        }
    }

    /// Stops the iterator.
    pub fn finish(&mut self)
        ensures
            final(self)@ == old(self)@.finish(),
    {
        match self {
            QueryPeerIter::Closest(iter) => iter.finish(),
            QueryPeerIter::Fixed(iter) => iter.finish(),
        }
    }

    /// Checks whether the iterator has finished.
    pub fn is_finished(&self) -> (b: bool)
        ensures
            b == self@.is_finished(),
    {
        match self {
            QueryPeerIter::Closest(iter) => iter.is_finished(),
            QueryPeerIter::Fixed(iter) => iter.is_finished(),
        }
    }

    /// Consumes the iterator for the peers that answered.
    pub fn into_result(self) -> (r: Vec<PeerId>)
        ensures
            r@ == self@.result(),
    {
        match self {
            QueryPeerIter::Closest(iter) => iter.into_result(),
            QueryPeerIter::Fixed(iter) => iter.into_result(),
        }
    }
}

} // verus!
