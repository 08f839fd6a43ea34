//! The order in which the buckets of a routing table are visited, from the
//! one that covers a target outwards.

use vstd::prelude::*;

use crate::kbucket::key::{Distance, NUM_BUCKETS};
use crate::kbucket::key_laws::{bucket_of_highest_digit, covers, zero_has_no_bucket};

verus! {

/// The index of a bucket. The bucket of index `i` holds the keys whose
/// distance to the local key lies in `[2^i, 2^(i+1))`.
#[derive(Clone, Copy, Debug, PartialEq, Eq, Structural)]
pub struct BucketIndex(pub usize);

/// Whether `i` is the index of the most significant digit of `d` that is set.
pub open spec fn is_top_bit(d: Distance, i: int) -> bool {
    &&& 0 <= i < NUM_BUCKETS
    &&& d.bit(i)
    &&& forall|j: int| i < j < NUM_BUCKETS ==> !#[trigger] d.bit(j)
}

/// Whether no digit of `d` is set.
pub open spec fn has_no_bit(d: Distance) -> bool {
    forall|j: int| 0 <= j < NUM_BUCKETS ==> !#[trigger] d.bit(j)
}

impl BucketIndex {
    /// The index of the bucket that covers the given distance to the local
    /// key. There is none for the distance zero: the local key has no bucket.
    pub fn new(d: &Distance) -> (r: Option<BucketIndex>)
        ensures
            match r {
                Some(i) => is_top_bit(*d, i.0 as int) && covers(i, *d),
                None => has_no_bit(*d) && d.value() == 0,
            },
    {
        proof {
            zero_has_no_bucket(*d);
        }
        let mut i: usize = NUM_BUCKETS;
        while i > 0
            invariant
                i <= NUM_BUCKETS,
                forall|j: int| i <= j < NUM_BUCKETS ==> !#[trigger] d.bit(j),
                has_no_bit(*d) <==> d.value() == 0,
            decreases i,
        {
            i = i - 1;
            if d.has_bit(i) {
                proof {
                    bucket_of_highest_digit(*d, i as int);
                }
                return Some(BucketIndex(i));
            }
        }
        None
    }

    /// Gets the index value.
    pub fn get(&self) -> (i: usize)
        ensures
            i == self.0,
    {
        self.0
    }
}

/// The buckets below `i` at the set digits of `d`, in descending order.
pub open spec fn zoom_in(d: Distance, i: int) -> Seq<BucketIndex>
    decreases i,
{
    if i <= 0 {
        Seq::empty()
    } else if d.bit(i - 1) {
        seq![BucketIndex((i - 1) as usize)] + zoom_in(d, i - 1)
    } else {
        zoom_in(d, i - 1)
    }
}

/// The buckets from `i` on at the unset digits of `d`, in ascending order.
pub open spec fn zoom_out(d: Distance, i: int) -> Seq<BucketIndex>
    decreases NUM_BUCKETS - i,
{
    if i >= NUM_BUCKETS {
        Seq::empty()
    } else if !d.bit(i) {
        seq![BucketIndex(i as usize)] + zoom_out(d, i + 1)
    } else {
        zoom_out(d, i + 1)
    }
}

/// The bucket to visit first: the one that covers the target, or bucket zero
/// if the target is the local key.
pub open spec fn first_bucket(d: Distance) -> int {
    if has_no_bit(d) {
        0
    } else {
        choose|i: int| is_top_bit(d, i)
    }
}

/// The lowest bucket that is left over for the way out.
pub open spec fn way_out(d: Distance) -> int {
    if has_no_bit(d) {
        1
    } else {
        0
    }
}

/// The order in which the buckets are visited for a target at distance `d` of
/// the local key: first the bucket that covers the target, then the buckets
/// that bring the walk closer to the local key, then the others, outwards.
pub open spec fn visit_order(d: Distance) -> Seq<BucketIndex> {
    seq![BucketIndex(first_bucket(d) as usize)] + zoom_in(d, first_bucket(d)) + zoom_out(
        d,
        way_out(d),
    )
}

/// The first bucket of a walk is the one that covers the target.
pub proof fn top_bit_is_first_bucket(d: Distance, i: int)
    requires
        is_top_bit(d, i),
    ensures
        !has_no_bit(d),
        first_bucket(d) == i,
{
    let k = choose|k: int| is_top_bit(d, k);
    assert(is_top_bit(d, k));
    if k < i {
        assert(!d.bit(i));
    } else if i < k {
        assert(!d.bit(k));
    }
}

proof fn zoom_in_members(d: Distance, i: int)
    requires
        0 <= i <= NUM_BUCKETS,
    ensures
        zoom_in(d, i).no_duplicates(),
        forall|b: BucketIndex| #[trigger]
            zoom_in(d, i).contains(b) <==> b.0 < i && d.bit(b.0 as int),
    decreases i,
{
    if i > 0 {
        zoom_in_members(d, i - 1);
        let rest = zoom_in(d, i - 1);
        if d.bit(i - 1) {
            let head = BucketIndex((i - 1) as usize);
            let all = seq![head] + rest;
            assert(!rest.contains(head));
            assert forall|b: BucketIndex| #[trigger] all.contains(b) <==> b.0 < i && d.bit(
                b.0 as int,
            ) by {
                if b == head {
                    assert(all[0] == b);
                } else if rest.contains(b) {
                    let k = rest.index_of(b);
                    assert(all[k + 1] == b);
                } else if all.contains(b) {
                    let k = all.index_of(b);
                    assert(rest[k - 1] == b);
                }
            }
        }
    } else {
        assert(zoom_in(d, i) =~= Seq::<BucketIndex>::empty());
    }
}

proof fn zoom_out_members(d: Distance, i: int)
    requires
        0 <= i <= NUM_BUCKETS,
    ensures
        zoom_out(d, i).no_duplicates(),
        forall|b: BucketIndex| #[trigger]
            zoom_out(d, i).contains(b) <==> i <= b.0 < NUM_BUCKETS && !d.bit(b.0 as int),
    decreases NUM_BUCKETS - i,
{
    if i < NUM_BUCKETS {
        zoom_out_members(d, i + 1);
        let rest = zoom_out(d, i + 1);
        if !d.bit(i) {
            let head = BucketIndex(i as usize);
            let all = seq![head] + rest;
            assert(!rest.contains(head));
            assert forall|b: BucketIndex| #[trigger] all.contains(b) <==> i <= b.0 < NUM_BUCKETS
                && !d.bit(b.0 as int) by {
                if b == head {
                    assert(all[0] == b);
                } else if rest.contains(b) {
                    let k = rest.index_of(b);
                    assert(all[k + 1] == b);
                } else if all.contains(b) {
                    let k = all.index_of(b);
                    assert(rest[k - 1] == b);
                }
            }
        }
    } else {
        assert(zoom_out(d, i) =~= Seq::<BucketIndex>::empty());
    }
}

/// The walk visits every bucket of the table, and none of them twice.
pub proof fn visits_every_bucket_once(d: Distance)
    ensures
        visit_order(d).no_duplicates(),
        forall|b: BucketIndex| #[trigger] visit_order(d).contains(b) <==> b.0 < NUM_BUCKETS,
{
    let first = first_bucket(d);
    if !has_no_bit(d) {
        assert(exists|i: int| is_top_bit(d, i)) by {
            top_bit_exists(d, NUM_BUCKETS as int);
        }
        assert(is_top_bit(d, first));
    }
    zoom_in_members(d, first);
    zoom_out_members(d, way_out(d));
    let head = BucketIndex(first as usize);
    let inner = zoom_in(d, first);
    let outer = zoom_out(d, way_out(d));
    let order = visit_order(d);
    assert(order =~= seq![head] + inner + outer);
    assert forall|b: BucketIndex| #[trigger] order.contains(b) <==> b.0 < NUM_BUCKETS by {
        if order.contains(b) {
            let k = order.index_of(b);
            if 0 < k <= inner.len() {
                assert(inner[k - 1] == b);
                assert(inner.contains(b));
            } else if k > inner.len() {
                assert(outer[k - 1 - inner.len()] == b);
                assert(outer.contains(b));
            }
        }
        if b.0 < NUM_BUCKETS {
            if b == head {
                assert(order[0] == b);
            } else if inner.contains(b) {
                let k = inner.index_of(b);
                assert(order[k + 1] == b);
            } else {
                assert(outer.contains(b));
                let k = outer.index_of(b);
                assert(order[k + 1 + inner.len()] == b);
            }
        }
    }
    assert forall|i: int, j: int| 0 <= i < j < order.len() implies order[i] != order[j] by {
        if j > inner.len() {
            assert(outer.contains(outer[j - 1 - inner.len()]));
        } else {
            assert(inner.contains(inner[j - 1]));
        }
        if 0 < i <= inner.len() {
            assert(inner.contains(inner[i - 1]));
        }
    }
}

proof fn top_bit_exists(d: Distance, n: int)
    requires
        0 <= n <= NUM_BUCKETS,
        forall|j: int| n <= j < NUM_BUCKETS ==> !#[trigger] d.bit(j),
        !has_no_bit(d),
    ensures
        exists|i: int| is_top_bit(d, i),
    decreases n,
{
    if n > 0 {
        if d.bit(n - 1) {
            assert(is_top_bit(d, n - 1));
        } else {
            top_bit_exists(d, n - 1);
        }
    }
}

/// Where a walk over the buckets stands.
#[derive(Clone, Copy, Debug)]
enum ClosestBucketsIterState {
    /// Nothing was visited so far.
    Start(BucketIndex),
    /// The way in: the bucket that was visited last.
    ZoomIn(BucketIndex),
    /// The way out: the lowest bucket that may still be visited.
    ZoomOut(usize),
}

/// An iterator over the indices of all buckets in the order in which they are
/// visited for a target.
#[derive(Clone, Copy, Debug)]
pub struct ClosestBucketsIter {
    /// The distance of the target to the local key.
    distance: Distance,
    state: ClosestBucketsIterState,
}

impl ClosestBucketsIter {
    /// The indices that are still to come.
    pub closed spec fn remaining(&self) -> Seq<BucketIndex> {
        let d = self.distance;
        match self.state {
            ClosestBucketsIterState::Start(i) => seq![i] + zoom_in(d, i.0 as int) + zoom_out(
                d,
                way_out(d),
            ),
            ClosestBucketsIterState::ZoomIn(i) => zoom_in(d, i.0 as int) + zoom_out(d, way_out(d)),
            ClosestBucketsIterState::ZoomOut(i) => zoom_out(d, i as int),
        }
    }

    /// What holds of every iterator.
    pub closed spec fn wf(&self) -> bool {
        match self.state {
            ClosestBucketsIterState::Start(i) => i.0 < NUM_BUCKETS,
            ClosestBucketsIterState::ZoomIn(i) => i.0 < NUM_BUCKETS,
            ClosestBucketsIterState::ZoomOut(i) => i <= NUM_BUCKETS,
        }
    }

    /// Starts a walk for a target at the given distance of the local key.
    pub fn new(distance: Distance) -> (r: ClosestBucketsIter)
        ensures
            r.wf(),
            r.remaining() == visit_order(distance),
    {
        let start = match BucketIndex::new(&distance) {
            Some(i) => {
                proof {
                    top_bit_is_first_bucket(distance, i.0 as int);
                }
                i
            },
            None => BucketIndex(0),
        };
        ClosestBucketsIter { distance, state: ClosestBucketsIterState::Start(start) }
    }

    /// The next bucket on the way in, below `i`.
    fn next_in(&self, i: BucketIndex) -> (r: Option<BucketIndex>)
        requires
            i.0 < NUM_BUCKETS,
        ensures
            match r {
                Some(j) => j.0 < i.0 && zoom_in(self.distance, i.0 as int) == seq![j] + zoom_in(
                    self.distance,
                    j.0 as int,
                ),
                None => zoom_in(self.distance, i.0 as int) == Seq::<BucketIndex>::empty(),
            },
    {
        let mut j: usize = i.0;
        while j > 0
            invariant
                j <= i.0 < NUM_BUCKETS,
                zoom_in(self.distance, i.0 as int) == zoom_in(self.distance, j as int),
            decreases j,
        {
            j = j - 1;
            if self.distance.has_bit(j) {
                return Some(BucketIndex(j));
            }
        }
        None
    }

    /// The next bucket on the way out, from `i` on.
    fn next_out(&self, i: usize) -> (r: Option<BucketIndex>)
        requires
            i <= NUM_BUCKETS,
        ensures
            match r {
                Some(j) => j.0 < NUM_BUCKETS && zoom_out(self.distance, i as int) == seq![j]
                    + zoom_out(self.distance, j.0 + 1),
                None => zoom_out(self.distance, i as int) == Seq::<BucketIndex>::empty(),
            },
    {
        let mut j: usize = i;
        while j < NUM_BUCKETS
            invariant
                i <= j <= NUM_BUCKETS,
                zoom_out(self.distance, i as int) == zoom_out(self.distance, j as int),
            decreases NUM_BUCKETS - j,
        {
            if !self.distance.has_bit(j) {
                return Some(BucketIndex(j));
            }
            j = j + 1;
        }
        None
    }

    /// Takes the next index.
    pub fn next(&mut self) -> (r: Option<BucketIndex>)
        requires
            old(self).wf(),
        ensures
            final(self).wf(),
            match r {
                Some(i) => {
                    &&& i.0 < NUM_BUCKETS
                    &&& old(self).remaining().len() > 0
                    &&& i == old(self).remaining()[0]
                    &&& final(self).remaining() == old(self).remaining().skip(1)
                },
                None => old(self).remaining().len() == 0 && final(self).remaining() == old(
                    self,
                ).remaining(),
            },
    {
        let r = match self.state {
            ClosestBucketsIterState::Start(i) => {
                self.state = ClosestBucketsIterState::ZoomIn(i);
                assert(self.remaining() =~= old(self).remaining().skip(1));
                return Some(i);
            },
            ClosestBucketsIterState::ZoomIn(i) => {
                if let Some(j) = self.next_in(i) {
                    self.state = ClosestBucketsIterState::ZoomIn(j);
                    assert(self.remaining() =~= old(self).remaining().skip(1));
                    return Some(j);
                }
                match BucketIndex::new(&self.distance) {
                    Some(top) => {
                        proof {
                            top_bit_is_first_bucket(self.distance, top.0 as int);
                        }
                        self.next_out(0)
                    },
                    None => self.next_out(1),
                }
            },
            ClosestBucketsIterState::ZoomOut(i) => self.next_out(i),
        };
        match r {
            Some(j) => {
                self.state = ClosestBucketsIterState::ZoomOut(j.0 + 1);
                assert(self.remaining() =~= old(self).remaining().skip(1));
            },
            None => {
                self.state = ClosestBucketsIterState::ZoomOut(NUM_BUCKETS);
                assert(self.remaining() =~= old(self).remaining());
            },
        }
        r
    }
}

} // verus!
