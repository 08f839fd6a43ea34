//! A bucket of bounded size.

use vstd::prelude::*;

use crate::kbucket::bucketable::{
    connected_and_disconnected, count_status, disconnected_first, disconnected_prefix,
    position_is_first, with_node, AppliedPending, Bucketable, Contents, InsertResult, Iter, Node,
    NodeStatus, PendingNode, Position,
};
use crate::kbucket::key::AsKeyBytes;
use crate::time::{Duration, Instant};

verus! {

/// A bucket that keeps its disconnected nodes in front of its connected ones,
/// in one list of bounded size.
#[derive(Debug)]
pub struct Bucket<TKey, TVal> {
    /// The nodes, from the least-recently to the most-recently connected.
    nodes: Vec<Node<TKey, TVal>>,
    /// The position of the first connected node, if there is any.
    first_connected_pos: Option<usize>,
    /// The number of nodes that there is room for.
    capacity: usize,
    /// The node that waits for a place.
    pending: Option<PendingNode<TKey, TVal>>,
    /// How long a node waits for a place.
    pending_timeout: Duration,
}

/// The status of the node at position `i`.
spec fn status_at(first_connected_pos: Option<usize>, i: int) -> NodeStatus {
    match first_connected_pos {
        Some(p) => if i < p {
            NodeStatus::Disconnected
        } else {
            NodeStatus::Connected
        },
        None => NodeStatus::Disconnected,
    }
}

/// The nodes together with their status.
spec fn labelled<TKey, TVal>(
    nodes: Seq<Node<TKey, TVal>>,
    first_connected_pos: Option<usize>,
) -> Seq<(Node<TKey, TVal>, NodeStatus)> {
    Seq::new(nodes.len(), |i: int| (nodes[i], status_at(first_connected_pos, i)))
}

/// The number of disconnected nodes.
spec fn disconnected_len<TKey, TVal>(
    nodes: Seq<Node<TKey, TVal>>,
    first_connected_pos: Option<usize>,
) -> int {
    match first_connected_pos {
        Some(p) => p as int,
        None => nodes.len() as int,
    }
}

proof fn labelled_order<TKey, TVal>(
    nodes: Seq<Node<TKey, TVal>>,
    first_connected_pos: Option<usize>,
)
    requires
        first_connected_pos matches Some(p) ==> p < nodes.len(),
    ensures
        disconnected_first(labelled(nodes, first_connected_pos)),
        count_status(labelled(nodes, first_connected_pos), NodeStatus::Disconnected)
            == disconnected_len(nodes, first_connected_pos),
{
    let all = labelled(nodes, first_connected_pos);
    disconnected_prefix(all);
    let n = count_status(all, NodeStatus::Disconnected) as int;
    let m = disconnected_len(nodes, first_connected_pos);
    if n < m {
        assert(all[n].1 == NodeStatus::Disconnected);
    } else if m < n {
        assert(all[m].1 == NodeStatus::Connected);
    }
}

impl<TKey, TVal> Bucket<TKey, TVal> {
    /// Creates an empty bucket with room for `capacity` nodes.
    pub fn new(capacity: usize, pending_timeout: Duration) -> (r: Self) where
        TKey: AsKeyBytes + Clone,
        TVal: Clone,

        requires
            0 < capacity,
        ensures
            r.wf(),
            r.contents().entries.len() == 0,
            r.contents().pending is None,
            r.contents().capacity == capacity,
            r.contents().pending_timeout == pending_timeout,
    {
        Bucket {
            nodes: Vec::new(),
            first_connected_pos: None,
            capacity,
            pending: None,
            pending_timeout,
        }
    }

    /// What holds of the fields.
    spec fn consistent(&self) -> bool {
        &&& 0 < self.capacity
        &&& self.nodes@.len() <= self.capacity
        &&& self.first_connected_pos matches Some(p) ==> p < self.nodes@.len()
    }

    /// The nodes together with their status.
    spec fn listing(&self) -> Seq<(Node<TKey, TVal>, NodeStatus)> {
        labelled(self.nodes@, self.first_connected_pos)
    }

    /// Adds a node, for which there is room.
    fn add(&mut self, node: Node<TKey, TVal>, status: NodeStatus)
        requires
            old(self).consistent(),
            old(self).nodes@.len() < old(self).capacity,
        ensures
            final(self).consistent(),
            final(self).listing() == with_node(old(self).listing(), node, status),
            final(self).capacity == old(self).capacity,
            final(self).pending == old(self).pending,
            final(self).pending_timeout == old(self).pending_timeout,
    {
        proof {
            labelled_order(self.nodes@, self.first_connected_pos);
        }
        match status {
            NodeStatus::Connected => {
                if self.first_connected_pos.is_none() {
                    self.first_connected_pos = Some(self.nodes.len());
                }
                self.nodes.push(node);
            },
            NodeStatus::Disconnected => {
                match self.first_connected_pos {
                    Some(p) => {
                        self.nodes.insert(p, node);
                        self.first_connected_pos = Some(p + 1);
                    },
                    None => {
                        self.nodes.push(node);
                    },
                }
            },
        }
        assert(self.listing() =~= with_node(old(self).listing(), node, status));
    }

    /// Takes out the node at the given position.
    fn take_out(&mut self, pos: usize) -> (node: Node<TKey, TVal>)
        requires
            old(self).consistent(),
            pos < old(self).nodes@.len(),
        ensures
            final(self).consistent(),
            final(self).nodes@.len() < final(self).capacity,
            node == old(self).nodes@[pos as int],
            final(self).listing() == old(self).listing().remove(pos as int),
            final(self).capacity == old(self).capacity,
            final(self).pending == old(self).pending,
            final(self).pending_timeout == old(self).pending_timeout,
    {
        let node = self.nodes.remove(pos);
        if let Some(p) = self.first_connected_pos {
            if pos < p {
                self.first_connected_pos = Some(p - 1);
            } else if p >= self.nodes.len() {
                self.first_connected_pos = None;
            }
        }
        assert(self.listing() =~= old(self).listing().remove(pos as int));
        node
    }
}

impl<TKey: AsKeyBytes + Clone, TVal: Clone> Bucketable for Bucket<TKey, TVal> {
    type TKey = TKey;

    type TVal = TVal;

    closed spec fn wf(&self) -> bool {
        self.consistent()
    }

    closed spec fn contents(&self) -> Contents<TKey, TVal> {
        Contents {
            entries: self.listing(),
            pending: self.pending,
            capacity: self.capacity as nat,
            pending_timeout: self.pending_timeout,
        }
    }

    proof fn bucket_order(&self) {
        labelled_order(self.nodes@, self.first_connected_pos);
    }

    fn pending(&self) -> (r: Option<&PendingNode<TKey, TVal>>) {
        self.pending.as_ref()
    }

    fn pending_mut(&mut self) -> (r: Option<&mut PendingNode<TKey, TVal>>) {
        self.pending.as_mut()
    }

    fn as_pending(&self, key: &TKey) -> (r: Option<&PendingNode<TKey, TVal>>) {
        match self.pending.as_ref() {
            Some(p) => if *p.node.key.as_key_bytes() == *key.as_key_bytes() {
                Some(p)
            } else {
                None
            },
            None => None,
        }
    }

    fn iter(&self) -> (r: Iter<'_, TKey, TVal>) {
        let mut items: Vec<(&Node<TKey, TVal>, NodeStatus)> = Vec::new();
        let mut i: usize = 0;
        while i < self.nodes.len()
            invariant
                self.consistent(),
                i <= self.nodes@.len(),
                items@.len() == i,
                forall|j: int|
                    0 <= j < i ==> *(#[trigger] items@[j]).0 == self.listing()[j].0 && items@[j].1
                        == self.listing()[j].1,
            decreases self.nodes@.len() - i,
        {
            let status = self.status(Position(i));
            items.push((&self.nodes[i], status));
            i = i + 1;
        }
        Iter::new(items)
    }

    fn apply_pending(&mut self, now: Instant) -> (r: Option<AppliedPending<TKey, TVal>>) {
        match self.pending.take() {
            Some(pending) => {
                if !pending.is_ready_at(now) {
                    self.pending = Some(pending);
                    return None;
                }
                let mut evicted = None;
                if self.nodes.len() >= self.capacity {
                    if self.is_connected(Position(0)) {
                        return None;
                    }
                    evicted = Some(self.take_out(0));
                    assert(self.listing() =~= old(self).listing().skip(1));
                }
                let inserted = pending.node.clone();
                self.add(pending.node, pending.status);
                Some(AppliedPending { inserted, evicted })
            },
            None => None,
        }
    }

    fn update_pending(&mut self, status: NodeStatus) {
        if let Some(pending) = self.pending.as_mut() {
            pending.status = status;
        }
    }

    fn update(&mut self, key: &TKey, status: NodeStatus) {
        proof {
            position_is_first(self.listing(), key.key_bytes());
        }
        if let Some(pos) = self.position(key) {
            let node = self.take_out(pos.0);
            if pos.0 == 0 {
                if let NodeStatus::Connected = status {
                    self.pending = None;
                }
            }
            self.add(node, status);
        }
    }

    fn insert(&mut self, node: Node<TKey, TVal>, status: NodeStatus, now: Instant) -> (r:
        InsertResult<TKey>) {
        if self.nodes.len() < self.capacity {
            self.add(node, status);
            return InsertResult::Inserted;
        }
        if let NodeStatus::Connected = status {
            if !self.is_connected(Position(0)) && self.pending.is_none() {
                let disconnected = self.nodes[0].key.clone();
                let replace = now.after(self.pending_timeout);
                self.pending = Some(PendingNode { node, status, replace });
                return InsertResult::Pending { disconnected };
            }
        }
        InsertResult::Full
    }

    fn status(&self, pos: Position) -> (r: NodeStatus) {
        match self.first_connected_pos {
            Some(p) => if pos.0 < p {
                NodeStatus::Disconnected
            } else {
                NodeStatus::Connected
            },
            None => NodeStatus::Disconnected,
        }
    }

    fn is_connected(&self, pos: Position) -> (r: bool) {
        match self.first_connected_pos {
            Some(p) => p <= pos.0 && pos.0 < self.nodes.len(),
            None => false,
        }
    }

    fn num_entries(&self) -> (n: usize) {
        self.nodes.len()
    }

    fn num_connected(&self) -> (n: usize) {
        proof {
            labelled_order(self.nodes@, self.first_connected_pos);
            connected_and_disconnected(self.listing());
        }
        match self.first_connected_pos {
            Some(p) => self.nodes.len() - p,
            None => 0,
        }
    }

    fn num_disconnected(&self) -> (n: usize) {
        proof {
            labelled_order(self.nodes@, self.first_connected_pos);
        }
        match self.first_connected_pos {
            Some(p) => p,
            None => self.nodes.len(),
        }
    }

    fn position(&self, key: &TKey) -> (r: Option<Position>) {
        let mut i: usize = 0;
        while i < self.nodes.len()
            invariant
                i <= self.nodes@.len(),
                forall|j: int|
                    0 <= j < i ==> (#[trigger] self.listing()[j]).0.key.key_bytes()
                        != key.key_bytes(),
            decreases self.nodes@.len() - i,
        {
            if *self.nodes[i].key.as_key_bytes() == *key.as_key_bytes() {
                proof {
                    position_is_first(self.listing(), key.key_bytes());
                    assert(self.listing()[i as int].0.key.key_bytes() == key.key_bytes());
                }
                return Some(Position(i));
            }
            i = i + 1;
        }
        proof {
            position_is_first(self.listing(), key.key_bytes());
        }
        None
    }

    fn get(&self, key: &TKey) -> (r: Option<&Node<TKey, TVal>>) {
        proof {
            position_is_first(self.listing(), key.key_bytes());
        }
        match self.position(key) {
            Some(p) => Some(&self.nodes[p.0]),
            None => None,
        }
    }

    fn get_mut(&mut self, key: &TKey) -> (r: Option<&mut Node<TKey, TVal>>) {
        proof {
            position_is_first(self.listing(), key.key_bytes());
        }
        match self.position(key) {
            Some(p) => Some(&mut self.nodes[p.0]),
            None => None,
        }
    }
}

} // verus!
