# weighted_kad

Routing and query logic of a Kademlia DHT in which peers carry weights, verified
with [Verus](https://github.com/verus-lang/verus).

Peers of weight zero form the *swamp*; all others are *weighted*.

* `kbucket`: the routing table. Each slot holds a bucket of weighted nodes and
  one of the swamp. `WeightedIter` walks over the table from the bucket of a
  target: it takes as many weighted nodes of a bucket as its quota asks for, and
  then a single node of the swamp before each further one of the bucket.
* `query`: queries contact peers, the weighted ones first. A `QueryPool` drives
  them to completion; `QueryStats` counts what they did.
* `metrics`: Prometheus metrics of a node.
* `time`, `peer`: points in time and peer identities as plain values.

The contracts speak of models: `Contents` of a bucket, `Traversal` of a walk,
`ClosestPeers` and `FixedPeers` of the peer iterators, `QueryView` and `PoolView`
of queries and pools. What holds across calls is proved in the modules whose
names end in `laws`, and in `query::progress`.

What is trusted: the hash map of the pool (`query/map.rs`), the system clock
(`time.rs`) and the metrics registry (`metrics.rs`).
