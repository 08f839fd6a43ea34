//! The walk over a routing table that favours nodes that carry weight.

use vstd::arithmetic::div_mod::lemma_basic_div;
use vstd::arithmetic::power2::{lemma2_to64, lemma_pow2_strictly_increases, pow2};
use vstd::prelude::*;

use crate::kbucket::bucketable::{Iter, Node, NodeStatus};
use crate::kbucket::closest::{
    first_bucket, top_bit_is_first_bucket, visit_order, BucketIndex, ClosestBucketsIter,
};
use crate::kbucket::key::{AsKeyBytes, Distance, KeyBytes};
use crate::kbucket::traversal::{
    by_distance, decide_in_any_state, detour_in_any_state, drain_in_any_state, gap,
    node_distance, placed, placed_at, pursue_in_any_state, quota, Progress, State, Traversal, Turn,
};
use crate::kbucket::KBucketsTable;

verus! {

/// An iterator over all nodes of a routing table. It takes nodes that carry
/// weight from the buckets around a target, and once it took as many of a
/// bucket as are wanted of it, a single node of the swamp before each further
/// one of that bucket.
pub struct WeightedIter<'a, TKey, TVal> {
    target: &'a KeyBytes,
    start: BucketIndex,
    weighted_buckets: ClosestBucketsIter,
    weighted_iter: Option<Iter<'a, TKey, TVal>>,
    swamp_buckets: ClosestBucketsIter,
    swamp_iter: Option<Iter<'a, TKey, TVal>>,
    table: &'a KBucketsTable<TKey, TVal>,
    state: State,
}

/// What an iterator still has to give.
spec fn left_of<'a, TKey, TVal>(iter: Option<Iter<'a, TKey, TVal>>) -> Option<
    Seq<(&'a Node<TKey, TVal>, NodeStatus)>,
> {
    match iter {
        Some(iter) => Some(iter@),
        None => None,
    }
}

impl<'a, TKey, TVal> View for WeightedIter<'a, TKey, TVal> {
    type V = Traversal<'a, TKey, TVal>;

    closed spec fn view(&self) -> Traversal<'a, TKey, TVal> {
        Traversal {
            table: self.table,
            target: *self.target,
            start: self.start,
            state: self.state,
            weighted: left_of(self.weighted_iter),
            weighted_order: self.weighted_buckets.remaining(),
            swamp: left_of(self.swamp_iter),
            swamp_order: self.swamp_buckets.remaining(),
        }
    }
}

impl<'a, TKey: AsKeyBytes + Clone, TVal: Clone> WeightedIter<'a, TKey, TVal> {
    /// What holds of every iterator.
    pub closed spec fn wf(&self) -> bool {
        &&& self.table.wf()
        &&& self.weighted_buckets.wf()
        &&& self.swamp_buckets.wf()
        &&& self@.has_progress() ==> self@.weighted is Some
    }

    /// Starts a walk over the table for a target at the given distance of the
    /// local key.
    pub fn new(
        table: &'a KBucketsTable<TKey, TVal>,
        distance: Distance,
        target: &'a KeyBytes,
    ) -> (r: WeightedIter<'a, TKey, TVal>)
        requires
            table.wf(),
        ensures
            r.wf(),
            r@ == (Traversal {
                table,
                target: *target,
                start: BucketIndex(first_bucket(distance) as usize),
                state: State::Nowhere,
                weighted: None,
                weighted_order: visit_order(distance),
                swamp: None,
                swamp_order: visit_order(distance),
            }),
    {
        let start = match BucketIndex::new(&distance) {
            Some(idx) => {
                proof {
                    top_bit_is_first_bucket(distance, idx.0 as int);
                }
                idx
            },
            None => BucketIndex(0),
        };
        WeightedIter {
            target,
            start,
            weighted_buckets: ClosestBucketsIter::new(distance),
            weighted_iter: None,
            swamp_buckets: ClosestBucketsIter::new(distance),
            swamp_iter: None,
            table,
            state: State::Nowhere,
        }
    }

    /// The number of nodes that are wanted of a weighted bucket.
    pub fn num_weighted(&self, idx: BucketIndex) -> (n: usize)
        ensures
            n == quota(self@.start, idx),
    {
        let distance: usize = if self.start.get() <= idx.get() {
            idx.get() - self.start.get()
        } else {
            self.start.get() - idx.get()
        };
        proof {
            lemma2_to64();
            assert(gap(self@.start, idx) + 2 == (distance + 2) as nat);
            assert(16nat / 4nat == 4 && 16nat / 8nat == 2 && 16nat / 16nat == 1);
            if distance > 3 {
                lemma_pow2_strictly_increases(5, (distance + 2) as nat);
            }
            if distance > 2 {
                lemma_basic_div(16, pow2((distance + 2) as nat) as int);
            }
        }
        // 16/2^(distance+2)
        if distance == 0 {
            4
        } else if distance == 1 {
            2
        } else if distance == 2 {
            1
        } else {
            0
        }
    }

    /// Takes iterator for next weighted bucket, saves it, and returns it together with the index
    /// of the bucket.
    pub fn next_weighted_bucket(&mut self) -> (r: Option<
        (BucketIndex, &mut Iter<'a, TKey, TVal>),
    >)
        requires
            old(self).wf(),
        ensures
            final(self).wf(),
            match r {
                Some((idx, iter)) => {
                    &&& old(self)@.weighted_order.len() > 0
                    &&& idx == old(self)@.weighted_order[0]
                    &&& iter@ == old(self)@.weighted_list(idx)
                    &&& final(self)@ == (Traversal {
                        weighted: Some(final(iter)@),
                        ..old(self)@.enter_weighted()
                    })
                },
                None => old(self)@.weighted_order.len() == 0 && final(self)@ == old(self)@,
            },
    {
        if let Some(idx) = self.weighted_buckets.next() {
            let table = self.table;
            let list = table.buckets[idx.get()].weighted().collect();
            let iter = self.sort_bucket(list);
            self.weighted_iter = Some(iter);
            match self.weighted_iter.as_mut() {
                Some(iter) => Some((idx, iter)),
                None => None,
            }
        } else {
            None
        }
    }

    /// Takes next weighted element of the current bucket, or of the first one if none was entered
    /// yet; returns `None` when there's no weighted element there.
    pub fn next_weighted(&mut self) -> (r: Option<(&'a Node<TKey, TVal>, NodeStatus)>)
        requires
            old(self).wf(),
        ensures
            final(self).wf(),
            r == old(self)@.at_weighted().weighted_head(),
            final(self)@ == old(self)@.at_weighted().weighted_tail(),
    {
        if let Some(iter) = self.weighted_iter.as_mut() {
            iter.next()
        } else if let Some((_, iter)) = self.next_weighted_bucket() {
            iter.next()
        } else {
            None
        }
    }

    /// Takes iterator for next swamp bucket, saves it, and returns it.
    pub fn next_swamp_bucket(&mut self) -> (r: Option<&mut Iter<'a, TKey, TVal>>)
        requires
            old(self).wf(),
        ensures
            final(self).wf(),
            match r {
                Some(iter) => {
                    &&& old(self)@.swamp_order.len() > 0
                    &&& iter@ == old(self)@.swamp_list(old(self)@.swamp_order[0])
                    &&& final(self)@ == (Traversal {
                        swamp: Some(final(iter)@),
                        ..old(self)@.enter_swamp()
                    })
                },
                None => old(self)@.swamp_order.len() == 0 && final(self)@ == old(self)@,
            },
    {
        if let Some(idx) = self.swamp_buckets.next() {
            let table = self.table;
            let list = table.buckets[idx.get()].swamp().collect();
            let iter = self.sort_bucket(list);
            self.swamp_iter = Some(iter);
            self.swamp_iter.as_mut()
        } else {
            None
        }
    }

    /// Takes next swamp element of the current bucket, or of the first one if none was entered
    /// yet; returns `None` when there's no swamp element there.
    pub fn next_swamp(&mut self) -> (r: Option<(&'a Node<TKey, TVal>, NodeStatus)>)
        requires
            old(self).wf(),
        ensures
            final(self).wf(),
            r == old(self)@.at_swamp().swamp_head(),
            final(self)@ == old(self)@.at_swamp().swamp_tail(),
    {
        if let Some(iter) = self.swamp_iter.as_mut() {
            iter.next()
        } else if let Some(iter) = self.next_swamp_bucket() {
            iter.next()
        } else {
            None
        }
    }

    /// The place of a node among others that are sorted by their distance to
    /// the target.
    fn place_of(
        &self,
        sorted: &Vec<(&'a Node<TKey, TVal>, NodeStatus)>,
        item: (&'a Node<TKey, TVal>, NodeStatus),
    ) -> (j: usize)
        ensures
            j <= sorted@.len(),
            placed(self@.target, sorted@, item) == sorted@.insert(j as int, item),
    {
        let distance = self.target.distance(item.0.key.as_key_bytes());
        let mut j: usize = sorted.len();
        while j > 0
            invariant
                j <= sorted@.len(),
                distance.value() == node_distance(self@.target, item),
                forall|k: int|
                    j <= k < sorted@.len() ==> node_distance(self@.target, #[trigger] sorted@[k])
                        > node_distance(self@.target, item),
            decreases j,
        {
            let other = self.target.distance(sorted[j - 1].0.key.as_key_bytes());
            if other.at_most(&distance) {
                proof {
                    placed_at(self@.target, sorted@, item, j as int);
                }
                return j;
            }
            j = j - 1;
        }
        proof {
            placed_at(self@.target, sorted@, item, j as int);
        }
        j
    }

    /// Sorts nodes by their distance to the target.
    pub fn sort_bucket(&self, bucket: Vec<(&'a Node<TKey, TVal>, NodeStatus)>) -> (r: Iter<
        'a,
        TKey,
        TVal,
    >)
        ensures
            r@ == by_distance(self@.target, bucket@),
    {
        let mut sorted: Vec<(&'a Node<TKey, TVal>, NodeStatus)> = Vec::new();
        let mut i: usize = 0;
        assert(bucket@.take(0) =~= Seq::empty());
        while i < bucket.len()
            invariant
                i <= bucket@.len(),
                sorted@ == by_distance(self@.target, bucket@.take(i as int)),
            decreases bucket@.len() - i,
        {
            let item = bucket[i];
            let j = self.place_of(&sorted, item);
            proof {
                assert(bucket@.take(i + 1).drop_last() =~= bucket@.take(i as int));
            }
            sorted.insert(j, item);
            i = i + 1;
        }
        assert(bucket@.take(i as int) =~= bucket@);
        Iter::new(sorted)
    }

    /// Takes the next node of the walk.
    pub fn next(&mut self) -> (r: Option<(&'a Node<TKey, TVal>, NodeStatus)>)
        requires
            old(self).wf(),
        ensures
            final(self).wf(),
            old(self)@.turn() == match r {
                Some(item) => Turn::Yield(item, final(self)@),
                None => Turn::End(final(self)@),
            },
    {
        loop
            invariant
                self.wf(),
                self@.turn() == old(self)@.turn(),
            decreases
                self@.weighted_order.len(),
                self@.swamp_order.len(),
                state_rank(self@.state),
        {
            let ghost before = self@;
            match self.state {
                // Not yet started, or just finished a bucket
                // Here we decide where to go next
                State::Nowhere => {
                    // If there is a weighted bucket, try take element from it
                    if let Some((idx, iter)) = self.next_weighted_bucket() {
                        if let Some(elem) = iter.next() {
                            // Found weighted element
                            let need = self.num_weighted(idx);
                            self.state = State::Weighted(Progress { got: 1, need });
                            return Some(elem);
                        }
                        // Weighted bucket was empty: go decide again
                        assert(self@ == before.enter_weighted());
                    } else {
                        // There are no weighted buckets, go to swamp
                        self.state = State::Swamp { saved: None };
                        proof {
                            drain_in_any_state(before, self.state);
                        }
                    }
                },
                State::Weighted(progress) => {
                    if progress.got < progress.need {
                        // Iterating through a weighted bucket, need more elements
                        if let Some(elem) = self.next_weighted() {
                            // Found weighted element, go take more
                            self.state = State::Weighted(
                                Progress { got: progress.got + 1, need: progress.need },
                            );
                            return Some(elem);
                        }
                        // Current bucket is empty, we're nowhere: need to decide where to go next
                        self.state = State::Nowhere;
                        proof {
                            decide_in_any_state(before.at_weighted(), self.state);
                        }
                    } else {
                        // Got enough weighted, go to swamp (saving progress, to return with it)
                        self.state = State::Swamp { saved: Some(progress) };
                        proof {
                            detour_in_any_state(before, self.state, progress);
                        }
                    }
                },
                // Back from the swamp, take one element of the weighted bucket
                State::Back(progress) => {
                    if let Some(elem) = self.next_weighted() {
                        let got = if progress.got < progress.need {
                            progress.got + 1
                        } else {
                            progress.got
                        };
                        self.state = State::Weighted(Progress { got, need: progress.need });
                        return Some(elem);
                    }
                    // Current bucket is empty, we're nowhere: need to decide where to go next
                    self.state = State::Nowhere;
                    proof {
                        decide_in_any_state(before.at_weighted(), self.state);
                    }
                },
                // Take one element from swamp, and go to Weighted
                State::Swamp { saved: Some(progress) } => {
                    if let Some(elem) = self.next_swamp() {
                        // We always take just a single element from the swamp
                        // And then go back to weighted
                        self.state = State::Back(progress);
                        return Some(elem);
                    }
                    if self.next_swamp_bucket().is_none() {
                        // No more swamp buckets, go drain weighted
                        self.state = State::Back(progress);
                        proof {
                            pursue_in_any_state(before.at_swamp(), self.state, progress);
                        }
                    }
                    // Otherwise current bucket was empty, take next one
                },
                // Weighted buckets are empty
                State::Swamp { saved: None } => {
                    if let Some(elem) = self.next_swamp() {
                        // Keep draining bucket until it's empty
                        return Some(elem);
                    }
                    if self.next_swamp_bucket().is_none() {
                        // Routing table is empty
                        self.state = State::Empty;
                        return None;
                    }
                    // Otherwise current bucket was empty, go try next one
                },
                State::Empty => {
                    return None;
                },
            }
        }
    }
}

/// How many decisions may follow in a state before the walk enters a bucket.
spec fn state_rank(state: State) -> nat {
    match state {
        State::Weighted(progress) => if progress.got < progress.need {
            3
        } else {
            5
        },
        State::Swamp { saved: Some(_) } => 4,
        State::Back(_) => 3,
        State::Nowhere => 2,
        State::Swamp { saved: None } => 1,
        State::Empty => 0,
    }
}

} // verus!
