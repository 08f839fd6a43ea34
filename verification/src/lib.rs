//! Routing and query logic of a Kademlia DHT whose peers carry weights.
//!
//! Peers of weight zero form the "swamp"; all others are "weighted". The
//! routing table keeps the two apart ([`kbucket`]), and a query walks two
//! peer iterators side by side, giving the weighted one priority ([`query`]).

use vstd::prelude::*;

pub mod kbucket;
pub mod metrics;
pub mod peer;
pub mod query;
pub mod time;

verus! {

/// The `k` parameter of Kademlia: the number of entries in a bucket and the
/// default replication factor.
pub const K_VALUE: usize = 20;

/// The `alpha` parameter of Kademlia: the number of requests that an
/// iterative query keeps in flight.
pub const ALPHA_VALUE: usize = 3;

} // verus!
