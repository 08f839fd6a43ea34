//! What a bucket of a routing table holds and how it behaves.

use vstd::prelude::*;

use crate::kbucket::key::{AsKeyBytes, KeyBytes};
use crate::time::{instant_after, nanos_between, Clock, Duration, Instant};

verus! {

/// A `PendingNode` is a `Node` that is pending insertion into a bucket.
#[derive(Debug, Clone)]
pub struct PendingNode<TKey, TVal> {
    /// The pending node to insert.
    pub node: Node<TKey, TVal>,
    /// The status of the pending node.
    pub status: NodeStatus,
    /// The instant at which the pending node is eligible for insertion into a bucket.
    pub replace: Instant,
}

/// The status of a node in a bucket.
///
/// The status of a node in a bucket together with the time of the
/// last status change determines the position of the node in a
/// bucket.
#[derive(PartialEq, Eq, Debug, Copy, Clone, Structural)]
pub enum NodeStatus {
    /// The node is considered connected.
    Connected,
    /// The node is considered disconnected.
    Disconnected,
}

impl<TKey, TVal> PendingNode<TKey, TVal> {
    /// Whether the node is eligible for insertion at the given instant.
    pub open spec fn eligible(&self, now: Instant) -> bool {
        now.nanos >= self.replace.nanos
    }

    /// Gets the key of the pending node.
    pub fn key(&self) -> (key: &TKey)
        ensures
            *key == self.node.key,
    {
        &self.node.key
    }

    /// Gets the status of the pending node.
    pub fn status(&self) -> (status: NodeStatus)
        ensures
            status == self.status,
    {
        self.status
    }

    /// Gets a mutable reference to the value of the pending node.
    pub fn value_mut(&mut self) -> (value: &mut TVal)
        ensures
            *value == old(self).node.value,
            final(self).node.value == *final(value),
            final(self).node.key == old(self).node.key,
            final(self).status == old(self).status,
            final(self).replace == old(self).replace,
    {
        &mut self.node.value
    }

    /// Checks whether the pending node is eligible for insertion now.
    ///
    /// Which instant that is, a reading of the system's clock decides.
    pub fn is_ready(&self, clock: &Clock) -> (b: bool)
        ensures
            exists|reading: std::time::Instant|
                b == self.eligible(
                    Instant { nanos: #[trigger] nanos_between(clock.origin(), reading) },
                ),
    {
        let now = clock.now();
        self.is_ready_at(now)
    }

    /// Checks whether the pending node is eligible for insertion at the given
    /// instant.
    pub fn is_ready_at(&self, now: Instant) -> (b: bool)
        ensures
            b == self.eligible(now),
    {
        now.nanos >= self.replace.nanos
    }

    /// Sets the instant at which the pending node is eligible for insertion.
    pub fn set_ready_at(&mut self, t: Instant)
        ensures
            final(self).replace == t,
            final(self).node == old(self).node,
            final(self).status == old(self).status,
    {
        self.replace = t;
    }
}

/// A `Node` in a bucket, representing a peer participating
/// in the Kademlia DHT together with an associated value (e.g. contact
/// information).
#[derive(Debug, PartialEq, Eq)]
pub struct Node<TKey, TVal> {
    /// The key of the node, identifying the peer.
    pub key: TKey,
    /// The associated value.
    pub value: TVal,
}

/// Whether `copy` is a clone of `node`.
pub open spec fn is_clone<TKey: Clone, TVal: Clone>(
    node: Node<TKey, TVal>,
    copy: Node<TKey, TVal>,
) -> bool {
    cloned::<TKey>(node.key, copy.key) && cloned::<TVal>(node.value, copy.value)
}

impl<TKey: Clone, TVal: Clone> Clone for Node<TKey, TVal> {
    fn clone(&self) -> (copy: Self)
        ensures
            is_clone(*self, copy),
    {
        Node { key: self.key.clone(), value: self.value.clone() }
    }
}

/// The position of a node in a bucket, i.e. a non-negative integer
/// below the capacity of the bucket.
#[derive(Copy, Clone, Debug, PartialEq, Eq, PartialOrd, Ord, Structural)]
pub struct Position(pub usize);

/// The result of inserting an entry into a bucket.
#[must_use]
#[derive(Debug, Clone, PartialEq, Eq)]
pub enum InsertResult<TKey> {
    /// The entry has been successfully inserted.
    Inserted,
    /// The entry is pending insertion because the relevant bucket is currently full.
    /// The entry is inserted after a timeout elapsed, if the status of the
    /// least-recently connected (and currently disconnected) node in the bucket
    /// is not updated before the timeout expires.
    Pending {
        /// The key of the least-recently connected entry that is currently considered
        /// disconnected and whose corresponding peer should be checked for connectivity
        /// in order to prevent it from being evicted. If connectivity to the peer is
        /// re-established, the corresponding entry should be updated with
        /// [`NodeStatus::Connected`].
        disconnected: TKey,
    },
    /// The entry was not inserted because the relevant bucket is full.
    Full,
}

/// The result of applying a pending node to a bucket, possibly
/// replacing an existing node.
#[derive(Debug, Clone, PartialEq, Eq)]
pub struct AppliedPending<TKey, TVal> {
    /// The inserted pending node.
    pub inserted: Node<TKey, TVal>,
    /// The node that has been evicted from the bucket to make room for the
    /// pending node, if any.
    pub evicted: Option<Node<TKey, TVal>>,
}

/// An iterator over nodes, together with their status.
#[derive(Debug)]
pub struct Iter<'a, TKey, TVal> {
    items: Vec<(&'a Node<TKey, TVal>, NodeStatus)>,
    pos: usize,
}

impl<'a, TKey, TVal> View for Iter<'a, TKey, TVal> {
    type V = Seq<(&'a Node<TKey, TVal>, NodeStatus)>;

    /// The nodes that are still to come.
    closed spec fn view(&self) -> Seq<(&'a Node<TKey, TVal>, NodeStatus)> {
        if self.pos <= self.items@.len() {
            self.items@.skip(self.pos as int)
        } else {
            Seq::empty()
        }
    }
}

impl<'a, TKey, TVal> Iter<'a, TKey, TVal> {
    /// Iterates over the given nodes, in their order.
    pub fn new(items: Vec<(&'a Node<TKey, TVal>, NodeStatus)>) -> (r: Self)
        ensures
            r@ == items@,
    {
        Iter { items, pos: 0 }
    }

    /// Takes the next node.
    pub fn next(&mut self) -> (r: Option<(&'a Node<TKey, TVal>, NodeStatus)>)
        ensures
            match r {
                Some(item) => {
                    &&& old(self)@.len() > 0
                    &&& item == old(self)@[0]
                    &&& final(self)@ == old(self)@.skip(1)
                },
                None => old(self)@.len() == 0 && final(self)@ == old(self)@,
            },
    {
        if self.pos < self.items.len() {
            let item = self.items[self.pos];
            self.pos = self.pos + 1;
            assert(self@ =~= old(self)@.skip(1));
            Some(item)
        } else {
            None
        }
    }

    /// Checks whether no node is still to come.
    pub fn is_empty(&self) -> (b: bool)
        ensures
            b == (self@.len() == 0),
    {
        self.pos >= self.items.len()
    }

    /// Collects the nodes that are still to come.
    pub fn collect(self) -> (r: Vec<(&'a Node<TKey, TVal>, NodeStatus)>)
        ensures
            r@ == self@,
    {
        let mut r = Vec::new();
        let mut i: usize = self.pos;
        while i < self.items.len()
            invariant
                self.pos <= self.items@.len() ==> self.pos <= i <= self.items@.len(),
                self.pos > self.items@.len() ==> i == self.pos,
                r@ == self@.take(i - self.pos),
            decreases self.items@.len() - i,
        {
            r.push(self.items[i]);
            i = i + 1;
            assert(r@ =~= self@.take(i - self.pos));
        }
        assert(r@ =~= self@);
        r
    }
}

/// Whether the disconnected entries all come before the connected ones.
pub open spec fn disconnected_first<TKey, TVal>(
    entries: Seq<(Node<TKey, TVal>, NodeStatus)>,
) -> bool {
    forall|i: int, j: int|
        0 <= i < j < entries.len() && #[trigger] entries[i].1 == NodeStatus::Connected
            ==> #[trigger] entries[j].1 == NodeStatus::Connected
}

/// The number of entries with the given status.
pub open spec fn count_status<TKey, TVal>(
    entries: Seq<(Node<TKey, TVal>, NodeStatus)>,
    status: NodeStatus,
) -> nat
    decreases entries.len(),
{
    if entries.len() == 0 {
        0
    } else {
        count_status(entries.drop_last(), status) + if entries.last().1 == status {
            1nat
        } else {
            0nat
        }
    }
}

/// The first position whose entry has the given key.
pub open spec fn position_of<TKey: AsKeyBytes, TVal>(
    entries: Seq<(Node<TKey, TVal>, NodeStatus)>,
    key: KeyBytes,
) -> Option<int>
    decreases entries.len(),
{
    if entries.len() == 0 {
        None
    } else {
        match position_of(entries.drop_last(), key) {
            Some(i) => Some(i),
            None => if entries.last().0.key.key_bytes() == key {
                Some(entries.len() - 1)
            } else {
                None
            },
        }
    }
}

/// The entries after a node was added with the given status: a connected one
/// as the last entry, a disconnected one right before the first connected
/// entry.
pub open spec fn with_node<TKey, TVal>(
    entries: Seq<(Node<TKey, TVal>, NodeStatus)>,
    node: Node<TKey, TVal>,
    status: NodeStatus,
) -> Seq<(Node<TKey, TVal>, NodeStatus)> {
    match status {
        NodeStatus::Connected => entries.push((node, status)),
        NodeStatus::Disconnected => entries.insert(
            count_status(entries, NodeStatus::Disconnected) as int,
            (node, status),
        ),
    }
}

/// What a bucket holds.
pub struct Contents<TKey, TVal> {
    /// The nodes in the bucket, together with their status.
    pub entries: Seq<(Node<TKey, TVal>, NodeStatus)>,
    /// The node that is pending insertion.
    pub pending: Option<PendingNode<TKey, TVal>>,
    /// The number of entries that there is room for.
    pub capacity: nat,
    /// How long a node stays pending before it can be inserted.
    pub pending_timeout: Duration,
}

impl<TKey: AsKeyBytes, TVal> Contents<TKey, TVal> {
    /// Whether there is room for at least one entry, no more entries than there
    /// is room for, and the disconnected ones come first.
    pub open spec fn wf(self) -> bool {
        &&& 0 < self.capacity
        &&& self.entries.len() <= self.capacity
        &&& disconnected_first(self.entries)
    }

    /// Whether there is no room for another entry.
    pub open spec fn is_full(self) -> bool {
        self.entries.len() >= self.capacity
    }

    /// Whether a node with the given status has to wait for a place: the bucket
    /// is full, and the node is connected while the least-recently connected
    /// one is not, and no other node is waiting.
    pub open spec fn must_wait(self, status: NodeStatus) -> bool {
        &&& self.is_full()
        &&& status == NodeStatus::Connected
        &&& self.entries[0].1 == NodeStatus::Disconnected
        &&& self.pending is None
    }

    /// What the bucket holds after a node was offered to it.
    pub open spec fn insert(
        self,
        node: Node<TKey, TVal>,
        status: NodeStatus,
        now: Instant,
    ) -> Contents<TKey, TVal> {
        if !self.is_full() {
            Contents { entries: with_node(self.entries, node, status), ..self }
        } else if self.must_wait(status) {
            let replace = instant_after(now, self.pending_timeout);
            Contents { pending: Some(PendingNode { node, status, replace }), ..self }
        } else {
            self
        }
    }

    /// Whether there is a pending node whose timeout has elapsed.
    pub open spec fn is_ready(self, now: Instant) -> bool {
        self.pending matches Some(pending) && pending.eligible(now)
    }

    /// Whether a pending node gets a place: there is room, or the
    /// least-recently connected node is disconnected.
    pub open spec fn has_place(self) -> bool {
        !self.is_full() || self.entries[0].1 == NodeStatus::Disconnected
    }

    /// The node that makes room for the pending one, if that is needed.
    pub open spec fn evicted(self) -> Option<Node<TKey, TVal>> {
        if self.is_full() {
            Some(self.entries[0].0)
        } else {
            None
        }
    }

    /// What the bucket holds after its pending node was applied.
    pub open spec fn apply_pending(self, now: Instant) -> Contents<TKey, TVal> {
        if !self.is_ready(now) {
            self
        } else if self.has_place() {
            let rest = if self.is_full() {
                self.entries.skip(1)
            } else {
                self.entries
            };
            let pending = self.pending->0;
            Contents {
                entries: with_node(rest, pending.node, pending.status),
                pending: None,
                ..self
            }
        } else {
            Contents { pending: None, ..self }
        }
    }

    /// What the bucket holds after the status of a node was updated.
    pub open spec fn update(self, key: KeyBytes, status: NodeStatus) -> Contents<TKey, TVal> {
        match position_of(self.entries, key) {
            Some(i) => Contents {
                entries: with_node(self.entries.remove(i), self.entries[i].0, status),
                pending: if i == 0 && status == NodeStatus::Connected {
                    None
                } else {
                    self.pending
                },
                ..self
            },
            None => self,
        }
    }

    /// What the bucket holds after the status of its pending node was updated.
    pub open spec fn update_pending(self, status: NodeStatus) -> Contents<TKey, TVal> {
        match self.pending {
            Some(p) => Contents {
                pending: Some(PendingNode { node: p.node, status, replace: p.replace }),
                ..self
            },
            None => self,
        }
    }
}

/// A bucket: a list of nodes, ordered from the least-recently to the
/// most-recently connected, with at most one node pending insertion.
pub trait Bucketable: Sized {
    /// The type of the keys that identify the nodes.
    type TKey: AsKeyBytes + Clone;

    /// The type of the values that are associated with the nodes.
    type TVal: Clone;

    /// What holds of every bucket.
    spec fn wf(&self) -> bool;

    /// What the bucket holds.
    spec fn contents(&self) -> Contents<Self::TKey, Self::TVal>;

    /// A bucket has room for at least one entry and never holds more entries
    /// than it has room for; the disconnected ones come first.
    proof fn bucket_order(&self)
        requires
            self.wf(),
        ensures
            self.contents().wf(),
    ;

    /// Returns a reference to the pending node of the bucket, if there is any.
    fn pending(&self) -> (r: Option<&PendingNode<Self::TKey, Self::TVal>>)
        requires
            self.wf(),
        ensures
            match r {
                Some(p) => self.contents().pending == Some(*p),
                None => self.contents().pending is None,
            },
    ;

    /// Returns a mutable reference to the pending node of the bucket, if there is any.
    fn pending_mut(&mut self) -> (r: Option<&mut PendingNode<Self::TKey, Self::TVal>>)
        requires
            old(self).wf(),
        ensures
            final(self).wf(),
            final(self).contents().entries == old(self).contents().entries,
            final(self).contents().capacity == old(self).contents().capacity,
            final(self).contents().pending_timeout == old(self).contents().pending_timeout,
            match r {
                Some(p) => {
                    &&& old(self).contents().pending == Some(*p)
                    &&& final(self).contents().pending == Some(*final(p))
                },
                None => {
                    &&& old(self).contents().pending is None
                    &&& final(self).contents().pending is None
                },
            },
    ;

    /// Returns a reference to the pending node of the bucket, if there is any
    /// with a matching key.
    fn as_pending(&self, key: &Self::TKey) -> (r: Option<&PendingNode<Self::TKey, Self::TVal>>)
        requires
            self.wf(),
        ensures
            match r {
                Some(p) => self.contents().pending == Some(*p) && p.node.key.key_bytes()
                    == key.key_bytes(),
                None => match self.contents().pending {
                    Some(p) => p.node.key.key_bytes() != key.key_bytes(),
                    None => true,
                },
            },
    ;

    /// Returns an iterator over the nodes in the bucket, together with their status.
    fn iter(&self) -> (r: Iter<'_, Self::TKey, Self::TVal>)
        requires
            self.wf(),
        ensures
            r@.len() == self.contents().entries.len(),
            forall|i: int|
                0 <= i < r@.len() ==> *(#[trigger] r@[i]).0 == self.contents().entries[i].0
                    && r@[i].1 == self.contents().entries[i].1,
    ;

    /// Inserts the pending node into the bucket, if its timeout has elapsed at
    /// the given instant, replacing the least-recently connected node if the
    /// bucket is full.
    ///
    /// If a pending node has been inserted, it is returned together with
    /// the node that was replaced. `None` indicates that the nodes in the
    /// bucket remained unchanged: there is no pending node, or its timeout has
    /// not elapsed, or it had to be dropped since the bucket is full of
    /// connected nodes.
    fn apply_pending(&mut self, now: Instant) -> (r: Option<AppliedPending<Self::TKey, Self::TVal>>)
        requires
            old(self).wf(),
        ensures
            final(self).wf(),
            final(self).contents() == old(self).contents().apply_pending(now),
            match r {
                Some(applied) => {
                    &&& old(self).contents().is_ready(now)
                    &&& old(self).contents().has_place()
                    &&& is_clone(old(self).contents().pending->0.node, applied.inserted)
                    &&& applied.evicted == old(self).contents().evicted()
                },
                None => !old(self).contents().is_ready(now) || !old(self).contents().has_place(),
            },
    ;

    /// Updates the status of the pending node, if any.
    fn update_pending(&mut self, status: NodeStatus)
        requires
            old(self).wf(),
        ensures
            final(self).wf(),
            final(self).contents() == old(self).contents().update_pending(status),
    ;

    /// Updates the status of the node referred to by the given key, if it is
    /// in the bucket. The node becomes the most-recently connected or
    /// disconnected one. If the least-recently connected node turns out to be
    /// connected, the pending node is dropped.
    fn update(&mut self, key: &Self::TKey, status: NodeStatus)
        requires
            old(self).wf(),
        ensures
            final(self).wf(),
            final(self).contents() == old(self).contents().update(key.key_bytes(), status),
    ;

    /// Inserts a new node into the bucket with the given status.
    ///
    /// The status of the node to insert determines the result as follows:
    ///
    ///   * `NodeStatus::Connected`: If the bucket is full and either all nodes are connected
    ///     or there is already a pending node, insertion fails with `InsertResult::Full`.
    ///     If the bucket is full but at least one node is disconnected and there is no pending
    ///     node, the new node is inserted as pending, yielding `InsertResult::Pending`. It
    ///     can be inserted once the timeout for pending nodes has passed since `now`.
    ///     Otherwise the bucket has free slots and the new node is added to the end of the
    ///     bucket as the most-recently connected node.
    ///
    ///   * `NodeStatus::Disconnected`: If the bucket is full, insertion fails with
    ///     `InsertResult::Full`. Otherwise the bucket has free slots and the new node
    ///     is inserted at the position preceding the first connected node,
    ///     i.e. as the most-recently disconnected node. If there are no connected nodes,
    ///     the new node is added as the last element of the bucket.
    ///
    fn insert(
        &mut self,
        node: Node<Self::TKey, Self::TVal>,
        status: NodeStatus,
        now: Instant,
    ) -> (r: InsertResult<Self::TKey>)
        requires
            old(self).wf(),
        ensures
            final(self).wf(),
            final(self).contents() == old(self).contents().insert(node, status, now),
            match r {
                InsertResult::Inserted => !old(self).contents().is_full(),
                InsertResult::Pending { disconnected } => {
                    &&& old(self).contents().must_wait(status)
                    &&& cloned::<Self::TKey>(old(self).contents().entries[0].0.key, disconnected)
                },
                InsertResult::Full => {
                    &&& old(self).contents().is_full()
                    &&& !old(self).contents().must_wait(status)
                },
            },
    ;

    /// Returns the status of the node at the given position.
    fn status(&self, pos: Position) -> (r: NodeStatus)
        requires
            self.wf(),
            pos.0 < self.contents().entries.len(),
        ensures
            r == self.contents().entries[pos.0 as int].1,
    ;

    /// Checks whether the given position refers to a connected node.
    fn is_connected(&self, pos: Position) -> (r: bool)
        requires
            self.wf(),
        ensures
            r == (pos.0 < self.contents().entries.len() && self.contents().entries[pos.0 as int].1
                == NodeStatus::Connected),
    ;

    /// Gets the number of entries currently in the bucket.
    fn num_entries(&self) -> (n: usize)
        requires
            self.wf(),
        ensures
            n == self.contents().entries.len(),
    ;

    /// Gets the number of entries in the bucket that are considered connected.
    fn num_connected(&self) -> (n: usize)
        requires
            self.wf(),
        ensures
            n == count_status(self.contents().entries, NodeStatus::Connected),
    ;

    /// Gets the number of entries in the bucket that are considered disconnected.
    fn num_disconnected(&self) -> (n: usize)
        requires
            self.wf(),
        ensures
            n == count_status(self.contents().entries, NodeStatus::Disconnected),
    ;

    /// Gets the position of an node in the bucket.
    fn position(&self, key: &Self::TKey) -> (r: Option<Position>)
        requires
            self.wf(),
        ensures
            match r {
                Some(p) => position_of(self.contents().entries, key.key_bytes()) == Some(
                    p.0 as int,
                ),
                None => position_of(self.contents().entries, key.key_bytes()) is None,
            },
    ;

    /// Returns a reference to a node in the bucket.
    ///
    /// Returns `None` if the given key does not refer to a node in the
    /// bucket.
    fn get(&self, key: &Self::TKey) -> (r: Option<&Node<Self::TKey, Self::TVal>>)
        requires
            self.wf(),
        ensures
            match position_of(self.contents().entries, key.key_bytes()) {
                Some(i) => r == Some(&self.contents().entries[i].0),
                None => r is None,
            },
    ;

    /// Gets a mutable reference to the node identified by the given key.
    ///
    /// Returns `None` if the given key does not refer to a node in the
    /// bucket.
    fn get_mut(&mut self, key: &Self::TKey) -> (r: Option<&mut Node<Self::TKey, Self::TVal>>)
        requires
            old(self).wf(),
        ensures
            final(self).wf(),
            final(self).contents().capacity == old(self).contents().capacity,
            final(self).contents().pending_timeout == old(self).contents().pending_timeout,
            final(self).contents().pending == old(self).contents().pending,
            match r {
                Some(n) => match position_of(old(self).contents().entries, key.key_bytes()) {
                    Some(i) => {
                        &&& *n == old(self).contents().entries[i].0
                        &&& final(self).contents().entries == old(self).contents().entries.update(
                            i,
                            (*final(n), old(self).contents().entries[i].1),
                        )
                    },
                    None => false,
                },
                None => position_of(old(self).contents().entries, key.key_bytes()) is None
                    && final(self).contents().entries == old(self).contents().entries,
            },
    ;
}

/// What [`position_of`] finds is the first entry with the key.
pub proof fn position_is_first<TKey: AsKeyBytes, TVal>(
    entries: Seq<(Node<TKey, TVal>, NodeStatus)>,
    key: KeyBytes,
)
    ensures
        match position_of(entries, key) {
            Some(i) => {
                &&& 0 <= i < entries.len()
                &&& entries[i].0.key.key_bytes() == key
                &&& forall|j: int| 0 <= j < i ==> (#[trigger] entries[j]).0.key.key_bytes() != key
            },
            None => forall|j: int|
                0 <= j < entries.len() ==> (#[trigger] entries[j]).0.key.key_bytes() != key,
        },
    decreases entries.len(),
{
    if entries.len() > 0 {
        position_is_first(entries.drop_last(), key);
        assert forall|j: int| 0 <= j < entries.len() - 1 implies entries.drop_last()[j]
            == #[trigger] entries[j] by {}
        if position_of(entries.drop_last(), key) is None {
            assert forall|j: int| 0 <= j < entries.len() - 1 implies (
            #[trigger] entries[j]).0.key.key_bytes() != key by {
                assert(entries.drop_last()[j] == entries[j]);
            }
        }
    }
}

/// Every entry is either connected or disconnected.
pub proof fn connected_and_disconnected<TKey, TVal>(
    entries: Seq<(Node<TKey, TVal>, NodeStatus)>,
)
    ensures
        count_status(entries, NodeStatus::Connected) + count_status(
            entries,
            NodeStatus::Disconnected,
        ) == entries.len(),
    decreases entries.len(),
{
    if entries.len() > 0 {
        connected_and_disconnected(entries.drop_last());
    }
}

/// Where the disconnected entries come first, their number is the position of
/// the first connected entry.
pub proof fn disconnected_prefix<TKey, TVal>(entries: Seq<(Node<TKey, TVal>, NodeStatus)>)
    requires
        disconnected_first(entries),
    ensures
        count_status(entries, NodeStatus::Disconnected) <= entries.len(),
        forall|i: int|
            0 <= i < entries.len() ==> ((#[trigger] entries[i]).1 == NodeStatus::Disconnected <==> i
                < count_status(entries, NodeStatus::Disconnected)),
    decreases entries.len(),
{
    if entries.len() > 0 {
        let init = entries.drop_last();
        assert(disconnected_first(init)) by {
            assert forall|i: int, j: int|
                0 <= i < j < init.len() && #[trigger] init[i].1
                    == NodeStatus::Connected implies #[trigger] init[j].1
                == NodeStatus::Connected by {
                assert(entries[i].1 == NodeStatus::Connected);
                assert(entries[j].1 == NodeStatus::Connected);
            }
        }
        disconnected_prefix(init);
        assert forall|i: int| 0 <= i < entries.len() implies ((#[trigger] entries[i]).1
            == NodeStatus::Disconnected <==> i < count_status(
            entries,
            NodeStatus::Disconnected,
        )) by {
            if i < init.len() {
                assert(init[i] == entries[i]);
                if entries.last().1 == NodeStatus::Disconnected {
                    assert(entries[i].1 != NodeStatus::Connected);
                }
            } else {
                if entries.last().1 == NodeStatus::Disconnected && count_status(
                    init,
                    NodeStatus::Disconnected,
                ) < init.len() {
                    let k = count_status(init, NodeStatus::Disconnected) as int;
                    assert(init[k] == entries[k]);
                    assert(entries[k].1 == NodeStatus::Connected);
                    assert(entries[entries.len() - 1].1 == NodeStatus::Connected);
                }
            }
        }
    }
}

} // verus!
