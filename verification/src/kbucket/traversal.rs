//! What a walk over a routing table comes to: the model of
//! [`WeightedIter`](crate::kbucket::weighted_iter::WeightedIter).

use vstd::arithmetic::power2::pow2;
use vstd::prelude::*;

use crate::kbucket::bucketable::{Node, NodeStatus};
use crate::kbucket::closest::BucketIndex;
use crate::kbucket::key::{xor_distance, AsKeyBytes, KeyBytes};
use crate::kbucket::{entry_refs, KBucketsTable};

verus! {

/// How many nodes of a weighted bucket are wanted, and how many were taken.
#[derive(Copy, Clone, Debug)]
pub struct Progress {
    /// The number of nodes that are wanted.
    pub need: usize,
    /// The number of nodes that were taken.
    pub got: usize,
}

impl Progress {
    /// One node more, up to the number of nodes that are wanted.
    pub open spec fn one_more(self) -> Progress {
        Progress {
            got: if self.got < self.need {
                (self.got + 1) as usize
            } else {
                self.got
            },
            ..self
        }
    }
}

/// Where the walk stands.
#[derive(Copy, Clone, Debug)]
pub enum State {
    /// Not yet started, or just finished a bucket.
    Nowhere,
    /// Within a weighted bucket.
    Weighted(Progress),
    /// Back from the swamp: the next node comes from the weighted bucket.
    Back(Progress),
    /// In the swamp.
    Swamp {
        /// After taking one element from swamp, go back to weighted, keeping saved progress
        saved: Option<Progress>,
    },
    /// Nothing is left.
    Empty,
}

/// The distance of a node to the target.
pub open spec fn node_distance<TKey: AsKeyBytes, TVal>(
    target: KeyBytes,
    item: (&Node<TKey, TVal>, NodeStatus),
) -> nat {
    xor_distance(target, item.0.key.key_bytes()).value()
}

/// The nodes with one more put in its place: behind those that are at most as
/// far from the target, before those that are further away.
pub open spec fn placed<'a, TKey: AsKeyBytes, TVal>(
    target: KeyBytes,
    sorted: Seq<(&'a Node<TKey, TVal>, NodeStatus)>,
    item: (&'a Node<TKey, TVal>, NodeStatus),
) -> Seq<(&'a Node<TKey, TVal>, NodeStatus)>
    decreases sorted.len(),
{
    if sorted.len() == 0 || node_distance(target, sorted.last()) <= node_distance(target, item) {
        sorted.push(item)
    } else {
        placed(target, sorted.drop_last(), item).push(sorted.last())
    }
}

/// The nodes in the order of their distance to the target; those at the same
/// distance stay in the order in which they came.
pub open spec fn by_distance<'a, TKey: AsKeyBytes, TVal>(
    target: KeyBytes,
    items: Seq<(&'a Node<TKey, TVal>, NodeStatus)>,
) -> Seq<(&'a Node<TKey, TVal>, NodeStatus)>
    decreases items.len(),
{
    if items.len() == 0 {
        Seq::empty()
    } else {
        placed(target, by_distance(target, items.drop_last()), items.last())
    }
}

/// Whether no node comes before one that is closer to the target.
pub open spec fn is_by_distance<TKey: AsKeyBytes, TVal>(
    target: KeyBytes,
    items: Seq<(&Node<TKey, TVal>, NodeStatus)>,
) -> bool {
    forall|i: int, j: int|
        0 <= i < j < items.len() ==> node_distance(target, #[trigger] items[i]) <= node_distance(
            target,
            #[trigger] items[j],
        )
}

/// How far two buckets are apart.
pub open spec fn gap(a: BucketIndex, b: BucketIndex) -> nat {
    if a.0 <= b.0 {
        (b.0 - a.0) as nat
    } else {
        (a.0 - b.0) as nat
    }
}

/// The number of nodes that are wanted of a weighted bucket before the walk
/// turns to the swamp: four of the first bucket, and half as many with every
/// bucket further away from it.
pub open spec fn quota(start: BucketIndex, idx: BucketIndex) -> nat {
    16nat / pow2(gap(start, idx) + 2)
}

/// What is left of a walk over a routing table.
pub struct Traversal<'a, TKey, TVal> {
    /// The table.
    pub table: &'a KBucketsTable<TKey, TVal>,
    /// The key that the nodes are wanted close to.
    pub target: KeyBytes,
    /// The bucket that covers the target.
    pub start: BucketIndex,
    /// Where the walk stands.
    pub state: State,
    /// What is left of the weighted bucket that was entered last.
    pub weighted: Option<Seq<(&'a Node<TKey, TVal>, NodeStatus)>>,
    /// The weighted buckets to enter.
    pub weighted_order: Seq<BucketIndex>,
    /// What is left of the swamp bucket that was entered last.
    pub swamp: Option<Seq<(&'a Node<TKey, TVal>, NodeStatus)>>,
    /// The swamp buckets to enter.
    pub swamp_order: Seq<BucketIndex>,
}

/// How the next turn of a walk ends.
pub enum Turn<'a, TKey, TVal> {
    /// The walk comes to a node.
    Yield((&'a Node<TKey, TVal>, NodeStatus), Traversal<'a, TKey, TVal>),
    /// Nothing is left.
    End(Traversal<'a, TKey, TVal>),
}

impl<'a, TKey: AsKeyBytes + Clone, TVal: Clone> Traversal<'a, TKey, TVal> {
    /// The nodes of a weighted bucket, those closest to the target first.
    pub open spec fn weighted_list(self, idx: BucketIndex) -> Seq<
        (&'a Node<TKey, TVal>, NodeStatus),
    > {
        by_distance(self.target, entry_refs(&self.table.buckets@[idx.0 as int].weighted))
    }

    /// The nodes of a swamp bucket, those closest to the target first.
    pub open spec fn swamp_list(self, idx: BucketIndex) -> Seq<
        (&'a Node<TKey, TVal>, NodeStatus),
    > {
        by_distance(self.target, entry_refs(&self.table.buckets@[idx.0 as int].swamp))
    }

    /// The walk in another state.
    pub open spec fn at(self, state: State) -> Self {
        Traversal { state, ..self }
    }

    /// The walk after entering the next weighted bucket.
    pub open spec fn enter_weighted(self) -> Self {
        if self.weighted_order.len() == 0 {
            self
        } else {
            Traversal {
                weighted: Some(self.weighted_list(self.weighted_order[0])),
                weighted_order: self.weighted_order.skip(1),
                ..self
            }
        }
    }

    /// The walk after entering the next swamp bucket.
    pub open spec fn enter_swamp(self) -> Self {
        if self.swamp_order.len() == 0 {
            self
        } else {
            Traversal {
                swamp: Some(self.swamp_list(self.swamp_order[0])),
                swamp_order: self.swamp_order.skip(1),
                ..self
            }
        }
    }

    /// The walk within a weighted bucket; if none was entered so far, within
    /// the first one.
    pub open spec fn at_weighted(self) -> Self {
        if self.weighted is None {
            self.enter_weighted()
        } else {
            self
        }
    }

    /// The walk within a swamp bucket; if none was entered so far, within the
    /// first one.
    pub open spec fn at_swamp(self) -> Self {
        if self.swamp is None {
            self.enter_swamp()
        } else {
            self
        }
    }

    /// The next node of the weighted bucket that the walk is in.
    pub open spec fn weighted_head(self) -> Option<(&'a Node<TKey, TVal>, NodeStatus)> {
        match self.weighted {
            Some(list) if list.len() > 0 => Some(list[0]),
            _ => None,
        }
    }

    /// The walk after taking the next node of the weighted bucket.
    pub open spec fn weighted_tail(self) -> Self {
        match self.weighted {
            Some(list) if list.len() > 0 => Traversal { weighted: Some(list.skip(1)), ..self },
            _ => self,
        }
    }

    /// The next node of the swamp bucket that the walk is in.
    pub open spec fn swamp_head(self) -> Option<(&'a Node<TKey, TVal>, NodeStatus)> {
        match self.swamp {
            Some(list) if list.len() > 0 => Some(list[0]),
            _ => None,
        }
    }

    /// The walk after taking the next node of the swamp bucket.
    pub open spec fn swamp_tail(self) -> Self {
        match self.swamp {
            Some(list) if list.len() > 0 => Traversal { swamp: Some(list.skip(1)), ..self },
            _ => self,
        }
    }

    /// The next node comes from the first weighted bucket ahead that is not
    /// empty, or, if there is none, from the swamp.
    pub open spec fn decide(self) -> Turn<'a, TKey, TVal>
        decreases self.weighted_order.len(),
    {
        if self.weighted_order.len() == 0 {
            self.drain()
        } else {
            let idx = self.weighted_order[0];
            let t = self.enter_weighted();
            match t.weighted_head() {
                Some(item) => Turn::Yield(
                    item,
                    t.weighted_tail().at(
                        State::Weighted(
                            Progress { got: 1, need: quota(self.start, idx) as usize },
                        ),
                    ),
                ),
                None => t.decide(),
            }
        }
    }

    /// The next node comes from the weighted bucket that the walk is in; if
    /// nothing is left there, the walk decides anew.
    pub open spec fn pursue(self, progress: Progress) -> Turn<'a, TKey, TVal> {
        let t = self.at_weighted();
        match t.weighted_head() {
            Some(item) => Turn::Yield(
                item,
                t.weighted_tail().at(State::Weighted(progress.one_more())),
            ),
            None => t.decide(),
        }
    }

    /// The quota of the weighted bucket is met: one node comes from the swamp,
    /// and the walk goes back to the weighted bucket. If the swamp is used up,
    /// the walk goes on with the weighted bucket.
    pub open spec fn detour(self, progress: Progress) -> Turn<'a, TKey, TVal>
        decreases self.swamp_order.len(),
    {
        let t = self.at_swamp();
        match t.swamp_head() {
            Some(item) => Turn::Yield(item, t.swamp_tail().at(State::Back(progress))),
            None => if t.swamp_order.len() > 0 {
                t.enter_swamp().detour(progress)
            } else {
                t.pursue(progress)
            },
        }
    }

    /// No weighted bucket is left: all nodes come from the swamp.
    pub open spec fn drain(self) -> Turn<'a, TKey, TVal>
        decreases self.swamp_order.len(),
    {
        let t = self.at_swamp();
        match t.swamp_head() {
            Some(item) => Turn::Yield(item, t.swamp_tail().at(State::Swamp { saved: None })),
            None => if t.swamp_order.len() > 0 {
                t.enter_swamp().drain()
            } else {
                Turn::End(t.at(State::Empty))
            },
        }
    }

    /// The next turn of the walk.
    pub open spec fn turn(self) -> Turn<'a, TKey, TVal> {
        match self.state {
            State::Nowhere => self.decide(),
            State::Weighted(progress) => if progress.got < progress.need {
                self.pursue(progress)
            } else {
                self.detour(progress)
            },
            State::Back(progress) => self.pursue(progress),
            State::Swamp { saved: Some(progress) } => self.detour(progress),
            State::Swamp { saved: None } => self.drain(),
            State::Empty => Turn::End(self),
        }
    }

    /// Whether the walk is on its way through a weighted bucket.
    pub open spec fn has_progress(self) -> bool {
        match self.state {
            State::Weighted(_) => true,
            State::Back(_) => true,
            State::Swamp { saved } => saved is Some,
            _ => false,
        }
    }
}

/// The way that a turn ends does not depend on the state that a walk is put in
/// before it decides.
pub(crate) proof fn decide_in_any_state<'a, TKey: AsKeyBytes + Clone, TVal: Clone>(
    t: Traversal<'a, TKey, TVal>,
    state: State,
)
    ensures
        t.at(state).decide() == t.decide(),
    decreases t.weighted_order.len(),
{
    let u = t.at(state);
    if t.weighted_order.len() == 0 {
        drain_in_any_state(t, state);
    } else {
        assert(u.enter_weighted() == t.enter_weighted().at(state));
        decide_in_any_state(t.enter_weighted(), state);
    }
}

/// The way that a turn ends does not depend on the state that a walk is put in
/// before it drains the swamp.
pub(crate) proof fn drain_in_any_state<'a, TKey: AsKeyBytes + Clone, TVal: Clone>(
    t: Traversal<'a, TKey, TVal>,
    state: State,
)
    ensures
        t.at(state).drain() == t.drain(),
    decreases t.swamp_order.len(),
{
    let u = t.at(state);
    assert(u.at_swamp() == t.at_swamp().at(state));
    let v = t.at_swamp();
    if v.swamp_head() is None && v.swamp_order.len() > 0 {
        assert(u.at_swamp().enter_swamp() == v.enter_swamp().at(state));
        drain_in_any_state(v.enter_swamp(), state);
    }
}

/// The way that a turn ends does not depend on the state that a walk is put in
/// before it turns to the swamp.
pub(crate) proof fn detour_in_any_state<'a, TKey: AsKeyBytes + Clone, TVal: Clone>(
    t: Traversal<'a, TKey, TVal>,
    state: State,
    progress: Progress,
)
    ensures
        t.at(state).detour(progress) == t.detour(progress),
    decreases t.swamp_order.len(),
{
    let u = t.at(state);
    assert(u.at_swamp() == t.at_swamp().at(state));
    let v = t.at_swamp();
    if v.swamp_head() is None {
        if v.swamp_order.len() > 0 {
            assert(u.at_swamp().enter_swamp() == v.enter_swamp().at(state));
            detour_in_any_state(v.enter_swamp(), state, progress);
        } else {
            pursue_in_any_state(v, state, progress);
        }
    }
}

/// The way that a turn ends does not depend on the state that a walk is put in
/// before it goes on with a weighted bucket.
pub(crate) proof fn pursue_in_any_state<'a, TKey: AsKeyBytes + Clone, TVal: Clone>(
    t: Traversal<'a, TKey, TVal>,
    state: State,
    progress: Progress,
)
    ensures
        t.at(state).pursue(progress) == t.pursue(progress),
{
    assert(t.at(state).at_weighted() == t.at_weighted().at(state));
    decide_in_any_state(t.at_weighted(), state);
}

/// Where the nodes up to `i` are at most as far from the target as the item
/// and the others are further away, the place of the item is `i`.
pub(crate) proof fn placed_at<'a, TKey: AsKeyBytes, TVal>(
    target: KeyBytes,
    sorted: Seq<(&'a Node<TKey, TVal>, NodeStatus)>,
    item: (&'a Node<TKey, TVal>, NodeStatus),
    i: int,
)
    requires
        0 <= i <= sorted.len(),
        i > 0 ==> node_distance(target, sorted[i - 1]) <= node_distance(target, item),
        forall|j: int|
            i <= j < sorted.len() ==> node_distance(target, #[trigger] sorted[j]) > node_distance(
                target,
                item,
            ),
    ensures
        placed(target, sorted, item) == sorted.insert(i, item),
    decreases sorted.len(),
{
    if i == sorted.len() {
        assert(sorted.insert(i, item) =~= sorted.push(item));
    } else {
        assert(sorted[sorted.len() - 1] == sorted.last());
        placed_at(target, sorted.drop_last(), item, i);
        assert(sorted.insert(i, item) =~= sorted.drop_last().insert(i, item).push(sorted.last()));
    }
}

} // verus!
