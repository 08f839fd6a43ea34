//! Iterators over the peers that a query contacts.

use vstd::prelude::*;

use crate::peer::PeerId;

pub mod answer_laws;
pub mod closest;
pub mod closest_laws;
pub mod fixed;
pub mod fixed_laws;
pub mod next_laws;

verus! {

/// The state of a peer iterator.
#[derive(Debug, Clone, Copy, PartialEq, Eq)]
pub enum PeersIterState {
    /// The iterator is waiting for results. `Some(peer)` indicates that it
    /// now waits for a result of `peer`, in addition to any other peers.
    Waiting(Option<PeerId>),
    /// The iterator is waiting for results and is at capacity with respect to
    /// the number of peers that it waits for.
    WaitingAtCapacity,
    /// The iterator has finished.
    Finished,
}

} // verus!
