//! A peer iterator that iterates towards the peers closest to a target.

use vstd::prelude::*;

use crate::kbucket::key::{xor_distance, Key, KeyBytes};
use crate::peer::PeerId;
use crate::query::peers::PeersIterState;
use crate::time::{span_between, Duration, Instant};
use crate::{ALPHA_VALUE, K_VALUE};

verus! {

/// The configuration of a [`ClosestPeersIter`].
#[derive(Debug, Clone, Copy, PartialEq, Eq, Structural)]
pub struct ClosestPeersIterConfig {
    /// The number of peers that may be waited for at the same time while the
    /// iterator makes progress.
    pub parallelism: usize,
    /// The number of closest peers that must answer for the iterator to be
    /// done.
    pub num_results: usize,
    /// How long a peer is waited for.
    pub peer_timeout: Duration,
}

/// The configuration that is used where none is given.
pub open spec fn default_config() -> ClosestPeersIterConfig {
    ClosestPeersIterConfig {
        parallelism: ALPHA_VALUE,
        num_results: K_VALUE,
        peer_timeout: Duration { nanos: 10_000_000_000 },
    }
}

impl Default for ClosestPeersIterConfig {
    fn default() -> (r: Self)
        ensures
            r == default_config(),
    {
        ClosestPeersIterConfig {
            parallelism: ALPHA_VALUE,
            num_results: K_VALUE,
            peer_timeout: Duration::from_secs(10),
        }
    }
}

/// What became of a peer on the way to the target.
#[derive(Debug, Clone, Copy, PartialEq, Eq, Structural)]
pub enum ContactState {
    /// The peer was not contacted so far.
    NotContacted,
    /// The iterator is waiting for a result of the peer since the given
    /// instant.
    Waiting(Instant),
    /// The peer did not answer in time, but may still do so.
    Unresponsive,
    /// The attempt to contact the peer failed.
    Failed,
    /// The peer answered.
    Succeeded,
}

/// A peer on the way to the target.
#[derive(Debug, Clone, Copy)]
pub struct Candidate {
    /// The key of the peer.
    pub key: Key<PeerId>,
    /// What became of it.
    pub state: ContactState,
}

/// How an iterator gets on.
#[derive(Debug, Clone, Copy, PartialEq, Eq, Structural)]
pub enum Headway {
    /// The iterator comes closer to the target.
    Iterating {
        /// The number of answers in a row that brought it no closer.
        no_progress: usize,
    },
    /// The iterator comes no closer to the target, and asks more peers at the
    /// same time.
    Stalled,
    /// The iterator has finished.
    Finished,
}

/// The contents of a [`ClosestPeersIter`].
pub struct ClosestPeers {
    /// The configuration.
    pub config: ClosestPeersIterConfig,
    /// The key that the iterator is on its way to.
    pub target: KeyBytes,
    /// The known peers, those closest to the target first.
    pub candidates: Seq<Candidate>,
    /// How the iterator gets on.
    pub headway: Headway,
}

/// The distance of a key to the target.
pub open spec fn key_distance(target: KeyBytes, key: Key<PeerId>) -> nat {
    xor_distance(target, key.bytes).value()
}

/// Whether the candidates come in the order of their distance to the target,
/// no two of them at the same distance.
pub open spec fn closest_first(target: KeyBytes, candidates: Seq<Candidate>) -> bool {
    forall|i: int, j: int|
        0 <= i < j < candidates.len() ==> key_distance(target, (#[trigger] candidates[i]).key)
            < key_distance(target, (#[trigger] candidates[j]).key)
}

/// The candidates with a new one in its place, unless its key is known.
pub open spec fn with_key(
    target: KeyBytes,
    candidates: Seq<Candidate>,
    key: Key<PeerId>,
) -> Seq<Candidate>
    decreases candidates.len(),
{
    let new = Candidate { key, state: ContactState::NotContacted };
    if candidates.len() == 0 || key_distance(target, candidates.last().key) < key_distance(
        target,
        key,
    ) {
        candidates.push(new)
    } else if key_distance(target, candidates.last().key) == key_distance(target, key) {
        candidates
    } else {
        with_key(target, candidates.drop_last(), key).push(candidates.last())
    }
}

/// The candidates with several new ones.
pub open spec fn with_keys(
    target: KeyBytes,
    candidates: Seq<Candidate>,
    keys: Seq<Key<PeerId>>,
) -> Seq<Candidate>
    decreases keys.len(),
{
    if keys.len() == 0 {
        candidates
    } else {
        with_key(target, with_keys(target, candidates, keys.drop_last()), keys.last())
    }
}

/// The keys that an iterator starts with: the first of those given, as many as
/// fit a bucket.
pub open spec fn first_keys(keys: Seq<Key<PeerId>>) -> Seq<Key<PeerId>> {
    if keys.len() <= K_VALUE {
        keys
    } else {
        keys.take(K_VALUE as int)
    }
}

/// Whether one of the new keys is the closest to the target when it is added.
pub open spec fn comes_closer(
    target: KeyBytes,
    candidates: Seq<Candidate>,
    keys: Seq<Key<PeerId>>,
) -> bool
    decreases keys.len(),
{
    if keys.len() == 0 {
        false
    } else {
        let now = with_keys(target, candidates, keys);
        ||| comes_closer(target, candidates, keys.drop_last())
        ||| key_distance(target, now[0].key) == key_distance(target, keys.last())
    }
}

/// Whether a result of the candidate is waited for.
pub open spec fn is_waiting_state(state: ContactState) -> bool {
    state is Waiting
}

/// Whether a request to the candidate was not answered so far.
pub open spec fn is_open_state(state: ContactState) -> bool {
    state is Waiting || state is Unresponsive
}

/// The number of candidates that are waited for.
pub open spec fn count_waiting(candidates: Seq<Candidate>) -> nat
    decreases candidates.len(),
{
    if candidates.len() == 0 {
        0
    } else {
        count_waiting(candidates.drop_last()) + if is_waiting_state(candidates.last().state) {
            1nat
        } else {
            0nat
        }
    }
}

/// The number of candidates that were contacted and did not answer so far.
pub open spec fn count_open(candidates: Seq<Candidate>) -> nat
    decreases candidates.len(),
{
    if candidates.len() == 0 {
        0
    } else {
        count_open(candidates.drop_last()) + if is_open_state(candidates.last().state) {
            1nat
        } else {
            0nat
        }
    }
}

/// The number of candidates that were not contacted so far.
pub open spec fn count_left(candidates: Seq<Candidate>) -> nat
    decreases candidates.len(),
{
    if candidates.len() == 0 {
        0
    } else {
        count_left(candidates.drop_last()) + if candidates.last().state is NotContacted {
            1nat
        } else {
            0nat
        }
    }
}

/// Where a peer stands among the candidates.
pub open spec fn candidate_of(candidates: Seq<Candidate>, peer: PeerId) -> Option<int>
    decreases candidates.len(),
{
    if candidates.len() == 0 {
        None
    } else {
        match candidate_of(candidates.drop_last(), peer) {
            Some(i) => Some(i),
            None => if candidates.last().key.preimage == peer {
                Some(candidates.len() - 1)
            } else {
                None
            },
        }
    }
}

/// The peers that answered, those closest to the target first.
pub open spec fn answered(candidates: Seq<Candidate>) -> Seq<PeerId>
    decreases candidates.len(),
{
    if candidates.len() == 0 {
        Seq::empty()
    } else if candidates.last().state is Succeeded {
        answered(candidates.drop_last()).push(candidates.last().key.preimage)
    } else {
        answered(candidates.drop_last())
    }
}

/// The first `n` elements, or all if there are fewer.
pub open spec fn at_most(peers: Seq<PeerId>, n: nat) -> Seq<PeerId> {
    if peers.len() <= n {
        peers
    } else {
        peers.take(n as int)
    }
}

impl ClosestPeers {
    /// The contents with another state of one candidate.
    pub open spec fn with_state(self, i: int, state: ContactState) -> ClosestPeers {
        ClosestPeers {
            candidates: self.candidates.update(i, Candidate { key: self.candidates[i].key, state }),
            ..self
        }
    }

    /// Whether a result of the peer is waited for.
    pub open spec fn is_waiting(self, peer: PeerId) -> bool {
        match candidate_of(self.candidates, peer) {
            Some(i) => self.candidates[i].state is Waiting,
            None => false,
        }
    }

    /// Whether a result of the peer would be taken.
    pub open spec fn expects(self, peer: PeerId) -> bool {
        &&& self.headway != Headway::Finished
        &&& match candidate_of(self.candidates, peer) {
            Some(i) => is_open_state(self.candidates[i].state),
            None => false,
        }
    }

    /// What follows when the attempt to contact a peer failed, and whether its
    /// result was expected.
    pub open spec fn on_failure(self, peer: PeerId) -> (ClosestPeers, bool) {
        if self.expects(peer) {
            (self.with_state(candidate_of(self.candidates, peer)->0, ContactState::Failed), true)
        } else {
            (self, false)
        }
    }

    /// How the iterator gets on after an answer.
    pub open spec fn headway_after(self, progress: bool) -> Headway {
        match self.headway {
            Headway::Iterating { no_progress } => if progress {
                if self.config.parallelism == 0 {
                    Headway::Stalled
                } else {
                    Headway::Iterating { no_progress: 0 }
                }
            } else if no_progress + 1 >= self.config.parallelism {
                Headway::Stalled
            } else {
                Headway::Iterating { no_progress: (no_progress + 1) as usize }
            },
            Headway::Stalled => if progress {
                Headway::Iterating { no_progress: 0 }
            } else {
                Headway::Stalled
            },
            Headway::Finished => Headway::Finished,
        }
    }

    /// What follows when a peer answered with other peers, and whether its
    /// answer was expected.
    ///
    /// The iterator makes progress if one of the new peers is closer to the
    /// target than all others, or if it does not know enough peers yet.
    pub open spec fn on_success(self, peer: PeerId, closer: Seq<Key<PeerId>>) -> (
        ClosestPeers,
        bool,
    ) {
        if self.expects(peer) {
            let marked = self.with_state(
                candidate_of(self.candidates, peer)->0,
                ContactState::Succeeded,
            );
            let progress = closer.len() > 0 && (comes_closer(
                self.target,
                marked.candidates,
                closer,
            ) || self.candidates.len() < self.config.num_results);
            (
                ClosestPeers {
                    candidates: with_keys(self.target, marked.candidates, closer),
                    headway: self.headway_after(progress),
                    ..self
                },
                true,
            )
        } else {
            (self, false)
        }
    }

    /// Whether no more peers may be waited for.
    pub open spec fn at_capacity(self) -> bool {
        let waiting = count_waiting(self.candidates);
        match self.headway {
            Headway::Iterating { .. } => waiting >= self.config.parallelism,
            Headway::Stalled => waiting >= self.config.num_results && waiting
                >= self.config.parallelism,
            Headway::Finished => true,
        }
    }

    /// Goes through the candidates from the one at `i` on.
    ///
    /// `successes` counts the closer ones that answered; it is `None` once one
    /// of them is still waited for.
    pub open spec fn scan(
        self,
        now: Instant,
        full: bool,
        i: int,
        successes: Option<nat>,
    ) -> (ClosestPeers, PeersIterState)
        decreases self.candidates.len() - i,
    {
        if i < 0 || i >= self.candidates.len() {
            if count_waiting(self.candidates) > 0 {
                (self, PeersIterState::Waiting(None))
            } else {
                (
                    ClosestPeers { headway: Headway::Finished, ..self },
                    PeersIterState::Finished,
                )
            }
        } else {
            match self.candidates[i].state {
                ContactState::Waiting(since) => if span_between(since, now).nanos
                    >= self.config.peer_timeout.nanos {
                    self.with_state(i, ContactState::Unresponsive).scan(now, full, i + 1, successes)
                } else if full {
                    (self, PeersIterState::WaitingAtCapacity)
                } else {
                    self.scan(now, full, i + 1, None)
                },
                ContactState::Succeeded => match successes {
                    Some(n) => if n + 1 >= self.config.num_results {
                        (
                            ClosestPeers { headway: Headway::Finished, ..self },
                            PeersIterState::Finished,
                        )
                    } else {
                        self.scan(now, full, i + 1, Some(n + 1))
                    },
                    None => self.scan(now, full, i + 1, None),
                },
                ContactState::NotContacted => if full {
                    (self, PeersIterState::WaitingAtCapacity)
                } else {
                    (
                        self.with_state(i, ContactState::Waiting(now)),
                        PeersIterState::Waiting(Some(self.candidates[i].key.preimage)),
                    )
                },
                _ => self.scan(now, full, i + 1, successes),
            }
        }
    }

    /// What follows when the iterator is asked for a peer to contact, and its
    /// answer.
    ///
    /// It finishes when as many of the closest peers answered as results are
    /// wanted, or when all peers were contacted and none is waited for.
    pub open spec fn next(self, now: Instant) -> (ClosestPeers, PeersIterState) {
        if self.headway == Headway::Finished {
            (self, PeersIterState::Finished)
        } else {
            self.scan(now, self.at_capacity(), 0, Some(0))
        }
    }

    /// What follows when the iterator is stopped.
    pub open spec fn finish(self) -> ClosestPeers {
        ClosestPeers { headway: Headway::Finished, ..self }
    }

    /// The closest peers that answered, as many as results are wanted.
    pub open spec fn result(self) -> Seq<PeerId> {
        at_most(answered(self.candidates), self.config.num_results as nat)
    }
}

/// What [`candidate_of`] finds is the first candidate of the peer.
pub proof fn candidate_is_first(candidates: Seq<Candidate>, peer: PeerId)
    ensures
        match candidate_of(candidates, peer) {
            Some(i) => {
                &&& 0 <= i < candidates.len()
                &&& candidates[i].key.preimage == peer
                &&& forall|j: int|
                    0 <= j < i ==> (#[trigger] candidates[j]).key.preimage != peer
            },
            None => forall|j: int|
                0 <= j < candidates.len() ==> (#[trigger] candidates[j]).key.preimage != peer,
        },
    decreases candidates.len(),
{
    if candidates.len() > 0 {
        let init = candidates.drop_last();
        candidate_is_first(init, peer);
        assert forall|j: int| 0 <= j < init.len() implies init[j] == #[trigger] candidates[j] by {}
        if candidate_of(init, peer) is None {
            assert forall|j: int| 0 <= j < init.len() implies (
            #[trigger] candidates[j]).key.preimage != peer by {
                assert(init[j] == candidates[j]);
            }
        }
    }
}

/// Where the candidates before `i` are closer to the target than the key and
/// the others are further away, the place of the key is `i`.
proof fn key_at(target: KeyBytes, candidates: Seq<Candidate>, key: Key<PeerId>, i: int)
    requires
        0 <= i <= candidates.len(),
        i > 0 ==> key_distance(target, candidates[i - 1].key) < key_distance(target, key),
        forall|j: int|
            i <= j < candidates.len() ==> key_distance(target, (#[trigger] candidates[j]).key)
                > key_distance(target, key),
    ensures
        with_key(target, candidates, key) == candidates.insert(
            i,
            Candidate { key, state: ContactState::NotContacted },
        ),
    decreases candidates.len(),
{
    let new = Candidate { key, state: ContactState::NotContacted };
    if i == candidates.len() {
        assert(candidates.insert(i, new) =~= candidates.push(new));
    } else {
        assert(candidates[candidates.len() - 1] == candidates.last());
        key_at(target, candidates.drop_last(), key, i);
        assert(candidates.insert(i, new) =~= candidates.drop_last().insert(i, new).push(
            candidates.last(),
        ));
    }
}

/// Where the candidate at `i` is as far from the target as the key and the
/// ones behind it are further away, the key is known.
proof fn key_known(target: KeyBytes, candidates: Seq<Candidate>, key: Key<PeerId>, i: int)
    requires
        0 <= i < candidates.len(),
        key_distance(target, candidates[i].key) == key_distance(target, key),
        forall|j: int|
            i < j < candidates.len() ==> key_distance(target, (#[trigger] candidates[j]).key)
                > key_distance(target, key),
    ensures
        with_key(target, candidates, key) == candidates,
    decreases candidates.len(),
{
    if i < candidates.len() - 1 {
        assert(candidates[candidates.len() - 1] == candidates.last());
        key_known(target, candidates.drop_last(), key, i);
        assert(candidates.drop_last().push(candidates.last()) =~= candidates);
    }
}

proof fn count_open_update(candidates: Seq<Candidate>, i: int, new: Candidate)
    requires
        0 <= i < candidates.len(),
    ensures
        count_open(candidates.update(i, new)) + if is_open_state(candidates[i].state) {
            1int
        } else {
            0
        } == count_open(candidates) + if is_open_state(new.state) {
            1int
        } else {
            0
        },
    decreases candidates.len(),
{
    let changed = candidates.update(i, new);
    if i < candidates.len() - 1 {
        count_open_update(candidates.drop_last(), i, new);
        assert(changed.drop_last() =~= candidates.drop_last().update(i, new));
    } else {
        assert(changed.drop_last() =~= candidates.drop_last());
    }
}

proof fn count_open_with_key(target: KeyBytes, candidates: Seq<Candidate>, key: Key<PeerId>)
    ensures
        count_open(with_key(target, candidates, key)) == count_open(candidates),
    decreases candidates.len(),
{
    let new = Candidate { key, state: ContactState::NotContacted };
    assert(candidates.push(new).drop_last() =~= candidates);
    if candidates.len() > 0 {
        let rest = with_key(target, candidates.drop_last(), key);
        count_open_with_key(target, candidates.drop_last(), key);
        assert(rest.push(candidates.last()).drop_last() =~= rest);
    }
}

proof fn count_open_with_keys(
    target: KeyBytes,
    candidates: Seq<Candidate>,
    keys: Seq<Key<PeerId>>,
)
    ensures
        count_open(with_keys(target, candidates, keys)) == count_open(candidates),
    decreases keys.len(),
{
    if keys.len() > 0 {
        count_open_with_keys(target, candidates, keys.drop_last());
        count_open_with_key(
            target,
            with_keys(target, candidates, keys.drop_last()),
            keys.last(),
        );
    }
}

/// An iterator starts without open requests.
pub proof fn known_keys_open_no_request(target: KeyBytes, keys: Seq<Key<PeerId>>)
    ensures
        count_open(with_keys(target, Seq::empty(), first_keys(keys))) == 0,
{
    count_open_with_keys(target, Seq::empty(), first_keys(keys));
}

/// A failure of a peer with an open request closes that request; any other
/// changes nothing.
pub proof fn failure_closes_request(peers: ClosestPeers, peer: PeerId)
    ensures
        ({
            let (after, updated) = peers.on_failure(peer);
            &&& updated ==> count_open(after.candidates) + 1 == count_open(peers.candidates)
            &&& !updated ==> after == peers
        }),
{
    candidate_is_first(peers.candidates, peer);
    if peers.expects(peer) {
        let i = candidate_of(peers.candidates, peer)->0;
        let new = Candidate { key: peers.candidates[i].key, state: ContactState::Failed };
        count_open_update(peers.candidates, i, new);
    }
}

/// An answer of a peer with an open request closes that request; any other
/// changes nothing.
pub proof fn success_closes_request(peers: ClosestPeers, peer: PeerId, closer: Seq<Key<PeerId>>)
    ensures
        ({
            let (after, updated) = peers.on_success(peer, closer);
            &&& updated ==> count_open(after.candidates) + 1 == count_open(peers.candidates)
            &&& !updated ==> after == peers
        }),
{
    candidate_is_first(peers.candidates, peer);
    if peers.expects(peer) {
        let i = candidate_of(peers.candidates, peer)->0;
        let new = Candidate { key: peers.candidates[i].key, state: ContactState::Succeeded };
        count_open_update(peers.candidates, i, new);
        count_open_with_keys(peers.target, peers.candidates.update(i, new), closer);
    }
}

proof fn scan_opens_request(
    peers: ClosestPeers,
    now: Instant,
    full: bool,
    i: int,
    successes: Option<nat>,
)
    ensures
        count_open(peers.scan(now, full, i, successes).0.candidates) == count_open(peers.candidates)
            + if peers.scan(now, full, i, successes).1 matches PeersIterState::Waiting(Some(_)) {
            1nat
        } else {
            0nat
        },
    decreases peers.candidates.len() - i,
{
    if 0 <= i < peers.candidates.len() {
        let key = peers.candidates[i].key;
        match peers.candidates[i].state {
            ContactState::Waiting(since) => {
                let late = peers.with_state(i, ContactState::Unresponsive);
                count_open_update(
                    peers.candidates,
                    i,
                    Candidate { key, state: ContactState::Unresponsive },
                );
                scan_opens_request(late, now, full, i + 1, successes);
                scan_opens_request(peers, now, full, i + 1, None);
            },
            ContactState::Succeeded => {
                scan_opens_request(peers, now, full, i + 1, None);
                if let Some(n) = successes {
                    scan_opens_request(peers, now, full, i + 1, Some(n + 1));
                }
            },
            ContactState::NotContacted => {
                count_open_update(
                    peers.candidates,
                    i,
                    Candidate { key, state: ContactState::Waiting(now) },
                );
            },
            _ => {
                scan_opens_request(peers, now, full, i + 1, successes);
            },
        }
    }
}

/// A peer to contact comes with one more open request; any other answer leaves
/// the open requests as they are.
pub proof fn contact_opens_request(peers: ClosestPeers, now: Instant)
    ensures
        count_open(peers.next(now).0.candidates) == count_open(peers.candidates)
            + if peers.next(now).1 matches PeersIterState::Waiting(Some(_)) {
            1nat
        } else {
            0nat
        },
{
    scan_opens_request(peers, now, peers.at_capacity(), 0, Some(0));
}

proof fn count_left_update(candidates: Seq<Candidate>, i: int, new: Candidate)
    requires
        0 <= i < candidates.len(),
    ensures
        count_left(candidates.update(i, new)) + if candidates[i].state is NotContacted {
            1int
        } else {
            0
        } == count_left(candidates) + if new.state is NotContacted {
            1int
        } else {
            0
        },
    decreases candidates.len(),
{
    let changed = candidates.update(i, new);
    if i < candidates.len() - 1 {
        count_left_update(candidates.drop_last(), i, new);
        assert(changed.drop_last() =~= candidates.drop_last().update(i, new));
    } else {
        assert(changed.drop_last() =~= candidates.drop_last());
    }
}

proof fn scan_takes_from_left(
    peers: ClosestPeers,
    now: Instant,
    full: bool,
    i: int,
    successes: Option<nat>,
)
    ensures
        count_left(peers.candidates) == count_left(
            peers.scan(now, full, i, successes).0.candidates,
        ) + if peers.scan(now, full, i, successes).1 matches PeersIterState::Waiting(Some(_)) {
            1nat
        } else {
            0nat
        },
    decreases peers.candidates.len() - i,
{
    if 0 <= i < peers.candidates.len() {
        let key = peers.candidates[i].key;
        let late = peers.with_state(i, ContactState::Unresponsive);
        count_left_update(
            peers.candidates,
            i,
            Candidate { key, state: ContactState::Unresponsive },
        );
        count_left_update(
            peers.candidates,
            i,
            Candidate { key, state: ContactState::Waiting(now) },
        );
        scan_takes_from_left(late, now, full, i + 1, successes);
        scan_takes_from_left(peers, now, full, i + 1, None);
        scan_takes_from_left(peers, now, full, i + 1, successes);
        if let Some(n) = successes {
            scan_takes_from_left(peers, now, full, i + 1, Some(n + 1));
        }
    }
}

/// A peer to contact is one less that is left to contact; any other answer
/// leaves as many.
pub proof fn contact_takes_from_left(peers: ClosestPeers, now: Instant)
    ensures
        count_left(peers.candidates) == count_left(peers.next(now).0.candidates)
            + if peers.next(now).1 matches PeersIterState::Waiting(Some(_)) {
            1nat
        } else {
            0nat
        },
{
    scan_takes_from_left(peers, now, peers.at_capacity(), 0, Some(0));
}

proof fn done_scan_is_finished(
    peers: ClosestPeers,
    now: Instant,
    full: bool,
    i: int,
    successes: Option<nat>,
)
    ensures
        peers.scan(now, full, i, successes).1 is Finished ==> peers.scan(
            now,
            full,
            i,
            successes,
        ).0.headway == Headway::Finished,
    decreases peers.candidates.len() - i,
{
    if 0 <= i < peers.candidates.len() {
        let late = peers.with_state(i, ContactState::Unresponsive);
        done_scan_is_finished(late, now, full, i + 1, successes);
        done_scan_is_finished(peers, now, full, i + 1, None);
        done_scan_is_finished(peers, now, full, i + 1, successes);
        if let Some(n) = successes {
            done_scan_is_finished(peers, now, full, i + 1, Some(n + 1));
        }
    }
}

/// An iterator that says that it has finished has done so.
pub proof fn done_is_finished(peers: ClosestPeers, now: Instant)
    ensures
        peers.next(now).1 is Finished ==> peers.next(now).0.headway == Headway::Finished,
{
    done_scan_is_finished(peers, now, peers.at_capacity(), 0, Some(0));
}

/// An iterator that asks the peers that it knows to be closest to a target for
/// peers that are closer still.
#[derive(Debug)]
pub struct ClosestPeersIter {
    config: ClosestPeersIterConfig,
    target: KeyBytes,
    candidates: Vec<Candidate>,
    headway: Headway,
}

impl View for ClosestPeersIter {
    type V = ClosestPeers;

    closed spec fn view(&self) -> ClosestPeers {
        ClosestPeers {
            config: self.config,
            target: self.target,
            candidates: self.candidates@,
            headway: self.headway,
        }
    }
}

impl ClosestPeersIter {
    /// Creates an iterator that starts with the first of the given peers, as
    /// many as fit a bucket.
    pub fn with_config(
        config: ClosestPeersIterConfig,
        target: KeyBytes,
        known_closest_peers: Vec<Key<PeerId>>,
    ) -> (r: ClosestPeersIter)
        ensures
            r@ == (ClosestPeers {
                config,
                target,
                candidates: with_keys(target, Seq::empty(), first_keys(known_closest_peers@)),
                headway: Headway::Iterating { no_progress: 0 },
            }),
    {
        let ghost known = known_closest_peers@;
        let mut r = ClosestPeersIter {
            config,
            target,
            candidates: Vec::new(),
            headway: Headway::Iterating { no_progress: 0 },
        };
        let mut i: usize = 0;
        assert(known.take(0) =~= Seq::empty());
        while i < known_closest_peers.len() && i < K_VALUE
            invariant
                i <= known.len(),
                i <= K_VALUE,
                known == known_closest_peers@,
                r.config == config,
                r.target == target,
                r.headway == (Headway::Iterating { no_progress: 0 }),
                r.candidates@ == with_keys(target, Seq::empty(), known.take(i as int)),
            decreases known.len() - i,
        {
            assert(known.take(i + 1).drop_last() =~= known.take(i as int));
            r.add(known_closest_peers[i]);
            i = i + 1;
        }
        assert(known.len() <= K_VALUE ==> known.take(i as int) =~= known);
        r
    }

    /// Adds a peer, unless its key is known.
    fn add(&mut self, key: Key<PeerId>)
        ensures
            final(self).candidates@ == with_key(old(self).target, old(self).candidates@, key),
            final(self).config == old(self).config,
            final(self).target == old(self).target,
            final(self).headway == old(self).headway,
    {
        let distance = self.target.distance(&key.bytes);
        let mut i: usize = self.candidates.len();
        while i > 0
            invariant
                i <= self.candidates@.len(),
                *self == *old(self),
                distance.value() == key_distance(self.target, key),
                forall|j: int|
                    i <= j < self.candidates@.len() ==> key_distance(
                        self.target,
                        (#[trigger] self.candidates@[j]).key,
                    ) > key_distance(self.target, key),
            decreases i,
        {
            let other = self.target.distance(&self.candidates[i - 1].key.bytes);
            if other.at_most(&distance) {
                if distance.at_most(&other) {
                    proof {
                        key_known(self.target, self.candidates@, key, i - 1);
                    }
                    return ;
                }
                proof {
                    key_at(self.target, self.candidates@, key, i as int);
                }
                self.candidates.insert(
                    i,
                    Candidate { key, state: ContactState::NotContacted },
                );
                return ;
            }
            i = i - 1;
        }
        proof {
            key_at(self.target, self.candidates@, key, 0);
        }
        self.candidates.insert(0, Candidate { key, state: ContactState::NotContacted });
    }

    /// The position of a peer among the candidates.
    fn find(&self, peer: &PeerId) -> (r: Option<usize>)
        ensures
            match r {
                Some(i) => i < self.candidates@.len() && candidate_of(self.candidates@, *peer)
                    == Some(i as int),
                None => candidate_of(self.candidates@, *peer) is None,
            },
    {
        let mut i: usize = 0;
        while i < self.candidates.len()
            invariant
                i <= self.candidates@.len(),
                forall|j: int|
                    0 <= j < i ==> (#[trigger] self.candidates@[j]).key.preimage != *peer,
            decreases self.candidates@.len() - i,
        {
            if self.candidates[i].key.preimage.same(peer) {
                proof {
                    candidate_is_first(self.candidates@, *peer);
                    assert(self.candidates@[i as int].key.preimage == *peer);
                }
                return Some(i);
            }
            i = i + 1;
        }
        proof {
            candidate_is_first(self.candidates@, *peer);
        }
        None
    }

    /// The number of candidates that are waited for.
    fn num_waiting(&self) -> (n: usize)
        ensures
            n == count_waiting(self.candidates@),
    {
        let mut n: usize = 0;
        let mut i: usize = 0;
        assert(self.candidates@.take(0) =~= Seq::empty());
        while i < self.candidates.len()
            invariant
                i <= self.candidates@.len(),
                n <= i,
                n == count_waiting(self.candidates@.take(i as int)),
            decreases self.candidates@.len() - i,
        {
            assert(self.candidates@.take(i + 1).drop_last() =~= self.candidates@.take(i as int));
            if let ContactState::Waiting(_) = self.candidates[i].state {
                n = n + 1;
            }
            i = i + 1;
        }
        assert(self.candidates@.take(i as int) =~= self.candidates@);
        n
    }

    /// Sets the state of a candidate.
    fn set_state(&mut self, i: usize, state: ContactState)
        requires
            i < old(self).candidates@.len(),
        ensures
            final(self)@ == old(self)@.with_state(i as int, state),
    {
        let key = self.candidates[i].key;
        self.candidates.set(i, Candidate { key, state });
    }

    /// The position of a peer whose result is expected.
    fn expected(&self, peer: &PeerId) -> (r: Option<usize>)
        ensures
            match r {
                Some(i) => {
                    &&& self@.expects(*peer)
                    &&& i < self.candidates@.len()
                    &&& candidate_of(self.candidates@, *peer) == Some(i as int)
                },
                None => !self@.expects(*peer),
            },
    {
        if let Headway::Finished = self.headway {
            return None;
        }
        match self.find(peer) {
            Some(i) => match self.candidates[i].state {
                ContactState::Waiting(_) => Some(i),
                ContactState::Unresponsive => Some(i),
                _ => None,
            },
            None => None,
        }
    }

    /// Notes that a peer answered with other peers. Returns whether its answer
    /// was expected.
    pub fn on_success(&mut self, peer: &PeerId, closer_peers: Vec<Key<PeerId>>) -> (updated: bool)
        ensures
            (final(self)@, updated) == old(self)@.on_success(*peer, closer_peers@),
    {
        let pos = match self.expected(peer) {
            Some(i) => i,
            None => {
                return false;
            },
        };
        let ghost closer = closer_peers@;
        self.set_state(pos, ContactState::Succeeded);
        let ghost marked = self@;
        let num_closest = self.candidates.len();
        let mut nearer: bool = false;
        let mut i: usize = 0;
        assert(closer.take(0) =~= Seq::empty());
        while i < closer_peers.len()
            invariant
                i <= closer.len(),
                closer == closer_peers@,
                self.config == marked.config,
                self.target == marked.target,
                self.headway == marked.headway,
                self.candidates@ == with_keys(
                    marked.target,
                    marked.candidates,
                    closer.take(i as int),
                ),
                nearer == comes_closer(marked.target, marked.candidates, closer.take(i as int)),
            decreases closer.len() - i,
        {
            assert(closer.take(i + 1).drop_last() =~= closer.take(i as int));
            let key = closer_peers[i];
            proof {
                with_key_len(marked.target, self.candidates@, key);
            }
            self.add(key);
            let first = self.target.distance(&self.candidates[0].key.bytes);
            let distance = self.target.distance(&key.bytes);
            if first.at_most(&distance) && distance.at_most(&first) {
                nearer = true;
            }
            i = i + 1;
        }
        assert(closer.take(i as int) =~= closer);
        let progress = closer_peers.len() > 0 && (nearer || num_closest < self.config.num_results);
        match self.headway {
            Headway::Iterating { no_progress } => {
                if progress && self.config.parallelism > 0 {
                    self.headway = Headway::Iterating { no_progress: 0 };
                } else if progress || self.config.parallelism <= 1 || no_progress
                    >= self.config.parallelism - 1 {
                    self.headway = Headway::Stalled;
                } else {
                    self.headway = Headway::Iterating { no_progress: no_progress + 1 };
                }
            },
            Headway::Stalled => {
                if progress {
                    self.headway = Headway::Iterating { no_progress: 0 };
                }
            },
            Headway::Finished => {},
        }
        true
    }

    /// Notes that the attempt to contact a peer failed. Returns whether its
    /// result was expected.
    pub fn on_failure(&mut self, peer: &PeerId) -> (updated: bool)
        ensures
            (final(self)@, updated) == old(self)@.on_failure(*peer),
    {
        match self.expected(peer) {
            Some(i) => {
                self.set_state(i, ContactState::Failed);
                true
            },
            None => false,
        }
    }

    /// Checks whether a result of the peer is waited for.
    pub fn is_waiting(&self, peer: &PeerId) -> (b: bool)
        ensures
            b == self@.is_waiting(*peer),
    {
        match self.find(peer) {
            Some(i) => match self.candidates[i].state {
                ContactState::Waiting(_) => true,
                _ => false,
            },
            None => false,
        }
    }

    /// Checks whether no more peers may be waited for.
    fn at_capacity(&self) -> (b: bool)
        ensures
            b == self@.at_capacity(),
    {
        let waiting = self.num_waiting();
        match self.headway {
            Headway::Iterating { .. } => waiting >= self.config.parallelism,
            Headway::Stalled => waiting >= self.config.num_results && waiting
                >= self.config.parallelism,
            Headway::Finished => true,
        }
    }

    /// Asks for a peer to contact.
    pub fn next(&mut self, now: Instant) -> (r: PeersIterState)
        ensures
            (final(self)@, r) == old(self)@.next(now),
    {
        if let Headway::Finished = self.headway {
            return PeersIterState::Finished;
        }
        // Count the number of peers that returned a result, as long as no
        // closer one is still waited for.
        let mut successes: Option<usize> = Some(0);
        let full = self.at_capacity();
        let mut i: usize = 0;
        while i < self.candidates.len()
            invariant
                i <= self.candidates@.len(),
                successes matches Some(n) ==> n <= i,
                self@.scan(
                    now,
                    full,
                    i as int,
                    match successes {
                        Some(n) => Some(n as nat),
                        None => None,
                    },
                ) == old(self)@.next(now),
            decreases self.candidates@.len() - i,
        {
            match self.candidates[i].state {
                ContactState::Waiting(since) => {
                    let waited = now.duration_since(since);
                    if waited.nanos >= self.config.peer_timeout.nanos {
                        // Unresponsive peers no longer count towards the limit
                        // for the bounded parallelism, though their results can
                        // still be delivered.
                        self.set_state(i, ContactState::Unresponsive);
                    } else if full {
                        return PeersIterState::WaitingAtCapacity;
                    } else {
                        // Not done, regardless of answers from peers farther
                        // from the target.
                        successes = None;
                    }
                },
                ContactState::Succeeded => {
                    if let Some(n) = successes {
                        if n + 1 >= self.config.num_results {
                            self.headway = Headway::Finished;
                            return PeersIterState::Finished;
                        }
                        successes = Some(n + 1);
                    }
                },
                ContactState::NotContacted => {
                    if full {
                        return PeersIterState::WaitingAtCapacity;
                    }
                    let peer = self.candidates[i].key.preimage;
                    self.set_state(i, ContactState::Waiting(now));
                    return PeersIterState::Waiting(Some(peer));
                },
                _ => {},
            }
            i = i + 1;
        }
        if self.num_waiting() > 0 {
            PeersIterState::Waiting(None)
        } else {
            self.headway = Headway::Finished;
            PeersIterState::Finished
        }
    }

    /// Stops the iterator.
    pub fn finish(&mut self)
        ensures
            final(self)@ == old(self)@.finish(),
    {
        self.headway = Headway::Finished;
    }

    /// Checks whether the iterator has finished.
    pub fn is_finished(&self) -> (b: bool)
        ensures
            b == (self@.headway == Headway::Finished),
    {
        match self.headway {
            Headway::Finished => true,
            _ => false,
        }
    }

    /// Consumes the iterator for the closest peers that answered.
    pub fn into_result(self) -> (r: Vec<PeerId>)
        ensures
            r@ == self@.result(),
    {
        let mut r: Vec<PeerId> = Vec::new();
        let mut i: usize = 0;
        assert(self.candidates@.take(0) =~= Seq::empty());
        while i < self.candidates.len()
            invariant
                i <= self.candidates@.len(),
                r@ == at_most(
                    answered(self.candidates@.take(i as int)),
                    self.config.num_results as nat,
                ),
            decreases self.candidates@.len() - i,
        {
            assert(self.candidates@.take(i + 1).drop_last() =~= self.candidates@.take(i as int));
            let ghost before = answered(self.candidates@.take(i as int));
            let ghost after = answered(self.candidates@.take(i + 1));
            if let ContactState::Succeeded = self.candidates[i].state {
                if r.len() < self.config.num_results {
                    r.push(self.candidates[i].key.preimage);
                }
            }
            assert(r@ =~= at_most(after, self.config.num_results as nat));
            i = i + 1;
        }
        assert(self.candidates@.take(i as int) =~= self.candidates@);
        r
    }
}

proof fn with_key_len(target: KeyBytes, candidates: Seq<Candidate>, key: Key<PeerId>)
    ensures
        with_key(target, candidates, key).len() > 0,
        with_key(target, candidates, key).len() >= candidates.len(),
    decreases candidates.len(),
{
    if candidates.len() > 0 {
        with_key_len(target, candidates.drop_last(), key);
    }
}

} // verus!
