//! What holds of every bucket.

use vstd::prelude::*;

use crate::kbucket::bucketable::{
    count_status, disconnected_first, disconnected_prefix, position_is_first, position_of,
    with_node, Contents, Node, NodeStatus,
};
use crate::kbucket::key::{AsKeyBytes, KeyBytes};
use crate::time::{instant_after, Instant};

verus! {

/// A node that is added comes right behind the nodes of its status, and the
/// others keep their order.
pub proof fn added_node_keeps_order<TKey: AsKeyBytes, TVal>(
    entries: Seq<(Node<TKey, TVal>, NodeStatus)>,
    node: Node<TKey, TVal>,
    status: NodeStatus,
)
    requires
        disconnected_first(entries),
    ensures
        ({
            let after = with_node(entries, node, status);
            let pos = match status {
                NodeStatus::Connected => entries.len() as int,
                NodeStatus::Disconnected => count_status(
                    entries,
                    NodeStatus::Disconnected,
                ) as int,
            };
            &&& 0 <= pos <= entries.len()
            &&& after == entries.insert(pos, (node, status))
            &&& disconnected_first(after)
            &&& after.len() == entries.len() + 1
            &&& position_of(after, node.key.key_bytes()) is Some
        }),
{
    disconnected_prefix(entries);
    let n = count_status(entries, NodeStatus::Disconnected) as int;
    let pos = match status {
        NodeStatus::Connected => entries.len() as int,
        NodeStatus::Disconnected => n,
    };
    let after = with_node(entries, node, status);
    assert(after =~= entries.insert(pos, (node, status)));
    assert forall|i: int, j: int|
        0 <= i < j < after.len() && #[trigger] after[i].1
            == NodeStatus::Connected implies #[trigger] after[j].1 == NodeStatus::Connected by {
        if i < pos {
            assert(after[i] == entries[i]);
            if j < pos {
                assert(after[j] == entries[j]);
            } else if j > pos {
                assert(after[j] == entries[j - 1]);
            }
        } else if i > pos {
            assert(after[i] == entries[i - 1]);
            assert(after[j] == entries[j - 1]);
        } else {
            assert(after[j] == entries[j - 1]);
        }
    }
    position_is_first(after, node.key.key_bytes());
    assert(after[pos].0 == node);
}

proof fn removed_node_keeps_order<TKey, TVal>(entries: Seq<(Node<TKey, TVal>, NodeStatus)>, i: int)
    requires
        disconnected_first(entries),
        0 <= i < entries.len(),
    ensures
        disconnected_first(entries.remove(i)),
        entries.remove(i).len() == entries.len() - 1,
{
    let rest = entries.remove(i);
    assert forall|a: int, b: int|
        0 <= a < b < rest.len() && #[trigger] rest[a].1
            == NodeStatus::Connected implies #[trigger] rest[b].1 == NodeStatus::Connected by {
        let a1 = if a < i {
            a
        } else {
            a + 1
        };
        let b1 = if b < i {
            b
        } else {
            b + 1
        };
        assert(rest[a] == entries[a1]);
        assert(rest[b] == entries[b1]);
    }
}

/// Inserting a node keeps a bucket in order.
pub proof fn insert_keeps_order<TKey: AsKeyBytes, TVal>(
    bucket: Contents<TKey, TVal>,
    node: Node<TKey, TVal>,
    status: NodeStatus,
    now: Instant,
)
    requires
        bucket.wf(),
    ensures
        bucket.insert(node, status, now).wf(),
{
    added_node_keeps_order(bucket.entries, node, status);
}

/// Applying the pending node keeps a bucket in order.
pub proof fn apply_pending_keeps_order<TKey: AsKeyBytes, TVal>(
    bucket: Contents<TKey, TVal>,
    now: Instant,
)
    requires
        bucket.wf(),
    ensures
        bucket.apply_pending(now).wf(),
{
    if bucket.is_ready(now) && bucket.has_place() {
        let pending = bucket.pending->0;
        if bucket.is_full() {
            removed_node_keeps_order(bucket.entries, 0);
            assert(bucket.entries.remove(0) =~= bucket.entries.skip(1));
            added_node_keeps_order(bucket.entries.skip(1), pending.node, pending.status);
        } else {
            added_node_keeps_order(bucket.entries, pending.node, pending.status);
        }
    }
}

/// Updating the status of a node keeps a bucket in order, and the number of its
/// entries.
pub proof fn update_keeps_order<TKey: AsKeyBytes, TVal>(
    bucket: Contents<TKey, TVal>,
    key: KeyBytes,
    status: NodeStatus,
)
    requires
        bucket.wf(),
    ensures
        bucket.update(key, status).wf(),
        bucket.update(key, status).entries.len() == bucket.entries.len(),
{
    position_is_first(bucket.entries, key);
    if let Some(i) = position_of(bucket.entries, key) {
        removed_node_keeps_order(bucket.entries, i);
        added_node_keeps_order(bucket.entries.remove(i), bucket.entries[i].0, status);
    }
}

/// A connected node has to wait if and only if the bucket is full, at least one
/// node is disconnected, and no other node is waiting; one that is offered to
/// a full bucket otherwise is turned away.
pub proof fn who_has_to_wait<TKey: AsKeyBytes, TVal>(
    bucket: Contents<TKey, TVal>,
    node: Node<TKey, TVal>,
    status: NodeStatus,
    now: Instant,
)
    requires
        bucket.wf(),
    ensures
        bucket.must_wait(status) <==> {
            &&& bucket.is_full()
            &&& status == NodeStatus::Connected
            &&& exists|i: int|
                0 <= i < bucket.entries.len() && (#[trigger] bucket.entries[i]).1
                    == NodeStatus::Disconnected
            &&& bucket.pending is None
        },
        bucket.is_full() && !bucket.must_wait(status) ==> bucket.insert(node, status, now)
            == bucket,
{
    if exists|i: int|
        0 <= i < bucket.entries.len() && (#[trigger] bucket.entries[i]).1
            == NodeStatus::Disconnected {
        let i = choose|i: int|
            0 <= i < bucket.entries.len() && (#[trigger] bucket.entries[i]).1
                == NodeStatus::Disconnected;
        if i > 0 && bucket.entries[0].1 == NodeStatus::Connected {
            assert(bucket.entries[i].1 == NodeStatus::Connected);
        }
    }
    if bucket.must_wait(status) {
        assert(bucket.entries[0].1 == NodeStatus::Disconnected);
    }
}

/// A node that had to wait is inserted once its timeout has elapsed, in place
/// of the least-recently connected node; before that nothing happens.
pub proof fn waiting_node_is_inserted<TKey: AsKeyBytes, TVal>(
    bucket: Contents<TKey, TVal>,
    node: Node<TKey, TVal>,
    now: Instant,
    then: Instant,
)
    requires
        bucket.wf(),
        bucket.must_wait(NodeStatus::Connected),
    ensures
        ({
            let waiting = bucket.insert(node, NodeStatus::Connected, now);
            let after = waiting.apply_pending(then);
            if then.nanos >= instant_after(now, bucket.pending_timeout).nanos {
                &&& waiting.evicted() == Some(bucket.entries[0].0)
                &&& after.entries == bucket.entries.skip(1).push((node, NodeStatus::Connected))
                &&& after.pending is None
            } else {
                after == waiting
            }
        }),
{
}

/// Updates of other nodes leave it open that the waiting node replaces the
/// least-recently connected one.
pub proof fn other_updates_keep_waiting<TKey: AsKeyBytes, TVal>(
    bucket: Contents<TKey, TVal>,
    key: KeyBytes,
    status: NodeStatus,
)
    requires
        bucket.wf(),
        bucket.is_full(),
        bucket.entries[0].1 == NodeStatus::Disconnected,
        position_of(bucket.entries, key) != Some(0int),
    ensures
        ({
            let after = bucket.update(key, status);
            &&& after.entries[0] == bucket.entries[0]
            &&& after.pending == bucket.pending
            &&& after.is_full()
        }),
{
    position_is_first(bucket.entries, key);
    if let Some(i) = position_of(bucket.entries, key) {
        let rest = bucket.entries.remove(i);
        removed_node_keeps_order(bucket.entries, i);
        disconnected_prefix(rest);
        added_node_keeps_order(rest, bucket.entries[i].0, status);
        assert(rest[0] == bucket.entries[0]);
    }
}

/// If the least-recently connected node turns out to be connected before the
/// timeout of the waiting node has elapsed, it stays in the bucket, as the
/// most-recently connected one, and nothing is left to insert.
pub proof fn reconnected_node_is_kept<TKey: AsKeyBytes, TVal>(
    bucket: Contents<TKey, TVal>,
    node: Node<TKey, TVal>,
    now: Instant,
    then: Instant,
)
    requires
        bucket.wf(),
        bucket.must_wait(NodeStatus::Connected),
    ensures
        ({
            let waiting = bucket.insert(node, NodeStatus::Connected, now);
            let kept = bucket.entries[0].0;
            let after = waiting.update(kept.key.key_bytes(), NodeStatus::Connected);
            &&& after.entries == bucket.entries.skip(1).push((kept, NodeStatus::Connected))
            &&& after.pending is None
            &&& after.apply_pending(then) == after
        }),
{
    let kept = bucket.entries[0].0;
    position_is_first(bucket.entries, kept.key.key_bytes());
    assert(bucket.entries.remove(0) =~= bucket.entries.skip(1));
}

/// Whether `after` is `before` with a node of the given status in its place: behind all
/// disconnected nodes and, if it is connected, behind all connected ones too.
pub open spec fn has_joined<TKey, TVal>(
    before: Seq<(Node<TKey, TVal>, NodeStatus)>,
    after: Seq<(Node<TKey, TVal>, NodeStatus)>,
    node: Node<TKey, TVal>,
    status: NodeStatus,
) -> bool {
    exists|pos: int|
        {
            &&& 0 <= pos <= before.len()
            &&& after == #[trigger] before.insert(pos, (node, status))
            &&& forall|i: int|
                0 <= i < pos && status == NodeStatus::Disconnected ==> (#[trigger] before[i]).1
                    == NodeStatus::Disconnected
            &&& forall|i: int|
                pos <= i < before.len() ==> (#[trigger] before[i]).1 == NodeStatus::Connected
                    && status == NodeStatus::Disconnected
        }
}

proof fn with_node_joins<TKey: AsKeyBytes, TVal>(
    entries: Seq<(Node<TKey, TVal>, NodeStatus)>,
    node: Node<TKey, TVal>,
    status: NodeStatus,
)
    requires
        disconnected_first(entries),
    ensures
        has_joined(entries, with_node(entries, node, status), node, status),
{
    added_node_keeps_order(entries, node, status);
    disconnected_prefix(entries);
    let pos = match status {
        NodeStatus::Connected => entries.len() as int,
        NodeStatus::Disconnected => count_status(entries, NodeStatus::Disconnected) as int,
    };
    assert(with_node(entries, node, status) == entries.insert(pos, (node, status)));
}

/// A node that is offered to a bucket with room joins its entries, whatever its status
/// is, and nothing else changes.
pub proof fn room_is_given<TKey: AsKeyBytes, TVal>(
    bucket: Contents<TKey, TVal>,
    node: Node<TKey, TVal>,
    status: NodeStatus,
    now: Instant,
)
    requires
        bucket.wf(),
        bucket.entries.len() < bucket.capacity,
    ensures
        has_joined(bucket.entries, bucket.insert(node, status, now).entries, node, status),
        bucket.insert(node, status, now).pending == bucket.pending,
        bucket.insert(node, status, now).capacity == bucket.capacity,
        bucket.insert(node, status, now).pending_timeout == bucket.pending_timeout,
        !bucket.is_full(),
{
    with_node_joins(bucket.entries, node, status);
}

/// A node that is offered to a full bucket changes no entry. It is pending, until the
/// timeout has passed, if it is connected, some entry is not, and no node is pending
/// yet; else it is turned away.
pub proof fn full_bucket_keeps_entries<TKey: AsKeyBytes, TVal>(
    bucket: Contents<TKey, TVal>,
    node: Node<TKey, TVal>,
    status: NodeStatus,
    now: Instant,
)
    requires
        bucket.wf(),
        bucket.entries.len() == bucket.capacity,
    ensures
        ({
            let after = bucket.insert(node, status, now);
            let waits = status == NodeStatus::Connected && bucket.pending is None && exists|i: int|
                0 <= i < bucket.entries.len() && (#[trigger] bucket.entries[i]).1
                    == NodeStatus::Disconnected;
            &&& after.entries == bucket.entries
            &&& after.capacity == bucket.capacity
            &&& after.pending_timeout == bucket.pending_timeout
            &&& !waits ==> after.pending == bucket.pending
            &&& waits ==> (after.pending matches Some(pending) && {
                &&& pending.node == node
                &&& pending.status == status
                &&& now.nanos + bucket.pending_timeout.nanos <= u128::MAX ==> pending.replace.nanos
                    == now.nanos + bucket.pending_timeout.nanos
                &&& now.nanos + bucket.pending_timeout.nanos > u128::MAX ==> pending.replace.nanos
                    == u128::MAX
            })
            &&& bucket.is_full()
            &&& bucket.must_wait(status) == waits
        }),
{
    who_has_to_wait(bucket, node, status, now);
}

/// A pending node stays pending before its time. When its time has come it is pending no
/// more: it joins the entries if there is room, it joins them in place of the first one
/// if that is disconnected, and it is dropped otherwise.
pub proof fn pending_node_in_its_time<TKey: AsKeyBytes, TVal>(
    bucket: Contents<TKey, TVal>,
    now: Instant,
)
    requires
        bucket.wf(),
    ensures
        ({
            let after = bucket.apply_pending(now);
            &&& after.capacity == bucket.capacity
            &&& after.pending_timeout == bucket.pending_timeout
            &&& match bucket.pending {
                None => after == bucket && !bucket.is_ready(now),
                Some(pending) => if now.nanos < pending.replace.nanos {
                    after == bucket && !bucket.is_ready(now)
                } else {
                    &&& bucket.is_ready(now)
                    &&& after.pending is None
                    &&& if bucket.entries.len() < bucket.capacity {
                        &&& bucket.has_place()
                        &&& bucket.evicted() is None
                        &&& has_joined(
                            bucket.entries,
                            after.entries,
                            pending.node,
                            pending.status,
                        )
                    } else if bucket.entries[0].1 == NodeStatus::Disconnected {
                        &&& bucket.has_place()
                        &&& bucket.evicted() == Some(bucket.entries[0].0)
                        &&& has_joined(
                            bucket.entries.remove(0),
                            after.entries,
                            pending.node,
                            pending.status,
                        )
                    } else {
                        !bucket.has_place() && after.entries == bucket.entries
                    }
                },
            }
        }),
{
    if let Some(pending) = bucket.pending {
        if bucket.entries.len() < bucket.capacity {
            with_node_joins(bucket.entries, pending.node, pending.status);
        } else {
            removed_node_keeps_order(bucket.entries, 0);
            assert(bucket.entries.remove(0) =~= bucket.entries.skip(1));
            with_node_joins(bucket.entries.remove(0), pending.node, pending.status);
        }
    }
}

/// The first node with a key takes the status that it is updated to, and joins the others
/// of that status, however full the bucket is. The pending node is dropped if and only if
/// the node was the first one and is connected now.
pub proof fn updated_node_has_its_status<TKey: AsKeyBytes, TVal>(
    bucket: Contents<TKey, TVal>,
    key: KeyBytes,
    status: NodeStatus,
    i: int,
)
    requires
        bucket.wf(),
        0 <= i < bucket.entries.len(),
        bucket.entries[i].0.key.key_bytes() == key,
        forall|j: int| 0 <= j < i ==> (#[trigger] bucket.entries[j]).0.key.key_bytes() != key,
    ensures
        ({
            let after = bucket.update(key, status);
            &&& has_joined(
                bucket.entries.remove(i),
                after.entries,
                bucket.entries[i].0,
                status,
            )
            &&& after.entries.contains((bucket.entries[i].0, status))
            &&& after.pending == if i == 0 && status == NodeStatus::Connected {
                None
            } else {
                bucket.pending
            }
            &&& after.capacity == bucket.capacity
            &&& after.pending_timeout == bucket.pending_timeout
        }),
{
    position_is_first(bucket.entries, key);
    removed_node_keeps_order(bucket.entries, i);
    let rest = bucket.entries.remove(i);
    let node = bucket.entries[i].0;
    with_node_joins(rest, node, status);
    let after = bucket.update(key, status).entries;
    let pos = choose|pos: int|
        {
            &&& 0 <= pos <= rest.len()
            &&& after == #[trigger] rest.insert(pos, (node, status))
            &&& forall|i: int|
                0 <= i < pos && status == NodeStatus::Disconnected ==> (#[trigger] rest[i]).1
                    == NodeStatus::Disconnected
            &&& forall|i: int|
                pos <= i < rest.len() ==> (#[trigger] rest[i]).1 == NodeStatus::Connected
                    && status == NodeStatus::Disconnected
        };
    assert(after[pos] == (node, status));
}

/// An update with a key that no node has changes nothing.
pub proof fn unknown_key_updates_nothing<TKey: AsKeyBytes, TVal>(
    bucket: Contents<TKey, TVal>,
    key: KeyBytes,
    status: NodeStatus,
)
    requires
        forall|j: int|
            0 <= j < bucket.entries.len() ==> (#[trigger] bucket.entries[j]).0.key.key_bytes()
                != key,
    ensures
        bucket.update(key, status) == bucket,
{
    position_is_first(bucket.entries, key);
}

/// The pending node takes the status that it is updated to, and nothing else changes.
pub proof fn updated_pending_node_has_its_status<TKey: AsKeyBytes, TVal>(
    bucket: Contents<TKey, TVal>,
    status: NodeStatus,
)
    ensures
        ({
            let after = bucket.update_pending(status);
            &&& after.entries == bucket.entries
            &&& after.capacity == bucket.capacity
            &&& after.pending_timeout == bucket.pending_timeout
            &&& after.pending is Some <==> bucket.pending is Some
            &&& bucket.pending matches Some(before) ==> {
                &&& after.pending->0.status == status
                &&& after.pending->0.node == before.node
                &&& after.pending->0.replace == before.replace
            }
        }),
{
}

/// Status by status, the counters of a bucket count its entries.
pub proof fn counters_count_entries<TKey, TVal>(
    entries: Seq<(Node<TKey, TVal>, NodeStatus)>,
    status: NodeStatus,
)
    ensures
        count_status(entries, status) == entries.filter(
            |entry: (Node<TKey, TVal>, NodeStatus)| entry.1 == status,
        ).len(),
    decreases entries.len(),
{
    broadcast use Seq::lemma_filter_push;

    let p = |entry: (Node<TKey, TVal>, NodeStatus)| entry.1 == status;
    if entries.len() > 0 {
        counters_count_entries(entries.drop_last(), status);
        assert(entries =~= entries.drop_last().push(entries.last()));
    } else {
        assert(entries.filter(p).len() == 0) by {
            reveal(Seq::filter);
        }
    }
}

/// No node is lost or doubled: the nodes after an update are those before it.
pub proof fn update_keeps_nodes<TKey: AsKeyBytes, TVal>(
    bucket: Contents<TKey, TVal>,
    key: KeyBytes,
    status: NodeStatus,
    i: int,
)
    requires
        bucket.wf(),
        0 <= i < bucket.entries.len(),
    ensures
        exists|j: int|
            0 <= j < bucket.update(key, status).entries.len() && (#[trigger] bucket.update(
                key,
                status,
            ).entries[j]).0 == bucket.entries[i].0,
        bucket.update(key, status).entries.len() == bucket.entries.len(),
{
    update_keeps_order(bucket, key, status);
    position_is_first(bucket.entries, key);
    let after = bucket.update(key, status).entries;
    match position_of(bucket.entries, key) {
        Some(k) => {
            let rest = bucket.entries.remove(k);
            removed_node_keeps_order(bucket.entries, k);
            added_node_keeps_order(rest, bucket.entries[k].0, status);
            let pos = match status {
                NodeStatus::Connected => rest.len() as int,
                NodeStatus::Disconnected => count_status(rest, NodeStatus::Disconnected) as int,
            };
            if i == k {
                assert(after[pos].0 == bucket.entries[i].0);
            } else {
                let r = if i < k {
                    i
                } else {
                    i - 1
                };
                assert(rest[r] == bucket.entries[i]);
                if r < pos {
                    assert(after[r] == rest[r]);
                } else {
                    assert(after[r + 1] == rest[r]);
                }
            }
        },
        None => {
            assert(after[i].0 == bucket.entries[i].0);
        },
    }
}

} // verus!
