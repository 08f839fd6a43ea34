//! The routing table: buckets of nodes, ordered by their distance to the
//! local key.

use vstd::prelude::*;

pub mod bucket;
pub mod bucket_laws;
pub mod bucketable;
pub mod closest;
pub mod key;
pub mod key_laws;
pub mod traversal;
pub mod turn_laws;
pub mod walk_laws;
pub mod weighted_iter;
pub mod weighted_laws;

use crate::kbucket::bucket::Bucket;
use crate::kbucket::bucketable::{Bucketable, Iter, Node, NodeStatus};
use crate::kbucket::closest::BucketIndex;
use crate::kbucket::key::{AsKeyBytes, NUM_BUCKETS};
use crate::time::Duration;

verus! {

/// References to the entries of a bucket.
pub open spec fn entry_refs<'a, TKey: AsKeyBytes + Clone, TVal: Clone>(
    bucket: &'a Bucket<TKey, TVal>,
) -> Seq<(&'a Node<TKey, TVal>, NodeStatus)> {
    Seq::new(
        bucket.contents().entries.len(),
        |i: int| (&bucket.contents().entries[i].0, bucket.contents().entries[i].1),
    )
}

/// A slot of the routing table: a bucket for the nodes that carry weight and
/// one for those that do not.
#[derive(Debug)]
pub struct KBucket<TKey, TVal> {
    /// The nodes that carry weight.
    pub weighted: Bucket<TKey, TVal>,
    /// The nodes of weight zero.
    pub swamp: Bucket<TKey, TVal>,
}

impl<TKey: AsKeyBytes + Clone, TVal: Clone> KBucket<TKey, TVal> {
    /// What holds of every slot.
    pub open spec fn wf(&self) -> bool {
        self.weighted.wf() && self.swamp.wf()
    }

    /// Iterates over the nodes that carry weight.
    pub fn weighted(&self) -> (r: Iter<'_, TKey, TVal>)
        requires
            self.wf(),
        ensures
            r@ == entry_refs(&self.weighted),
    {
        let r = self.weighted.iter();
        assert(r@ =~= entry_refs(&self.weighted));
        r
    }

    /// Iterates over the nodes of weight zero.
    pub fn swamp(&self) -> (r: Iter<'_, TKey, TVal>)
        requires
            self.wf(),
        ensures
            r@ == entry_refs(&self.swamp),
    {
        let r = self.swamp.iter();
        assert(r@ =~= entry_refs(&self.swamp));
        r
    }
}

/// A routing table, with one slot for each bit of a key.
#[derive(Debug)]
pub struct KBucketsTable<TKey, TVal> {
    /// The slots, by their index.
    pub buckets: Vec<KBucket<TKey, TVal>>,
}

impl<TKey: AsKeyBytes + Clone, TVal: Clone> KBucketsTable<TKey, TVal> {
    /// What holds of every table.
    pub open spec fn wf(&self) -> bool {
        &&& self.buckets@.len() == NUM_BUCKETS
        &&& forall|i: int| 0 <= i < NUM_BUCKETS ==> (#[trigger] self.buckets@[i]).wf()
    }

    /// Creates an empty table. Each of its buckets has room for `capacity`
    /// nodes.
    pub fn new(capacity: usize, pending_timeout: Duration) -> (r: Self)
        requires
            0 < capacity,
        ensures
            r.wf(),
            forall|i: int|
                0 <= i < NUM_BUCKETS ==> {
                    let slot = #[trigger] r.buckets@[i];
                    &&& slot.weighted.contents().entries.len() == 0
                    &&& slot.swamp.contents().entries.len() == 0
                    &&& slot.weighted.contents().pending is None
                    &&& slot.swamp.contents().pending is None
                    &&& slot.weighted.contents().capacity == capacity
                    &&& slot.swamp.contents().capacity == capacity
                    &&& slot.weighted.contents().pending_timeout == pending_timeout
                    &&& slot.swamp.contents().pending_timeout == pending_timeout
                },
    {
        let mut buckets: Vec<KBucket<TKey, TVal>> = Vec::new();
        let mut i: usize = 0;
        while i < NUM_BUCKETS
            invariant
                0 < capacity,
                i <= NUM_BUCKETS,
                buckets@.len() == i,
                forall|j: int|
                    0 <= j < i ==> {
                        let slot = #[trigger] buckets@[j];
                        &&& slot.wf()
                        &&& slot.weighted.contents().entries.len() == 0
                        &&& slot.swamp.contents().entries.len() == 0
                        &&& slot.weighted.contents().pending is None
                        &&& slot.swamp.contents().pending is None
                        &&& slot.weighted.contents().capacity == capacity
                        &&& slot.swamp.contents().capacity == capacity
                        &&& slot.weighted.contents().pending_timeout == pending_timeout
                        &&& slot.swamp.contents().pending_timeout == pending_timeout
                    },
            decreases NUM_BUCKETS - i,
        {
            buckets.push(
                KBucket {
                    weighted: Bucket::new(capacity, pending_timeout),
                    swamp: Bucket::new(capacity, pending_timeout),
                },
            );
            i = i + 1;
        }
        KBucketsTable { buckets }
    }

    /// Gets a mutable reference to the slot of the given index.
    pub fn bucket_mut(&mut self, index: BucketIndex) -> (r: Option<&mut KBucket<TKey, TVal>>)
        requires
            old(self).wf(),
        ensures
            match r {
                Some(slot) => {
                    &&& index.0 < NUM_BUCKETS
                    &&& *slot == old(self).buckets@[index.0 as int]
                    &&& final(self).buckets@ == old(self).buckets@.update(
                        index.0 as int,
                        *final(slot),
                    )
                    &&& final(slot).wf() ==> final(self).wf()
                },
                None => index.0 >= NUM_BUCKETS && final(self).buckets@ == old(self).buckets@,
            },
    {
        if index.0 < self.buckets.len() {
            Some(&mut self.buckets[index.0])
        } else {
            None
        }
    }
}

} // verus!
