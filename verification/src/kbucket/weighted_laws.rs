//! What holds of every walk over a routing table.

use vstd::arithmetic::div_mod::lemma_div_denominator;
use vstd::arithmetic::power2::{lemma2_to64, lemma_pow2_pos, lemma_pow2_unfold, pow2};
use vstd::multiset::Multiset;
use vstd::prelude::*;

use crate::kbucket::bucketable::{Node, NodeStatus};
use crate::kbucket::closest::{visit_order, visits_every_bucket_once, BucketIndex};
use crate::kbucket::key::{AsKeyBytes, Distance, KeyBytes, NUM_BUCKETS};
use crate::kbucket::traversal::{
    by_distance, gap, is_by_distance, node_distance, placed, quota, Progress, State, Traversal,
    Turn,
};
use crate::kbucket::{entry_refs, KBucketsTable};

verus! {

/// The quota of the first bucket is four.
pub proof fn first_quota(start: BucketIndex)
    ensures
        quota(start, start) == 4,
{
    lemma2_to64();
    assert(gap(start, start) + 2 == 2nat);
    assert(16nat / 4nat == 4);
}

/// A bucket that is one further away from the first one has half the quota.
pub proof fn quota_halves(start: BucketIndex, near: BucketIndex, far: BucketIndex)
    requires
        gap(start, far) == gap(start, near) + 1,
    ensures
        quota(start, far) == quota(start, near) / 2,
{
    let n = gap(start, near) + 2;
    lemma_pow2_unfold(n + 1);
    lemma_pow2_pos(n);
    assert(pow2(n + 1) == pow2(n) * 2) by (nonlinear_arith)
        requires
            pow2(n + 1) == 2 * pow2(n),
    ;
    lemma_div_denominator(16, pow2(n) as int, 2);
}

proof fn placed_sorted<'a, TKey: AsKeyBytes, TVal>(
    target: KeyBytes,
    sorted: Seq<(&'a Node<TKey, TVal>, NodeStatus)>,
    item: (&'a Node<TKey, TVal>, NodeStatus),
)
    requires
        is_by_distance(target, sorted),
    ensures
        is_by_distance(target, placed(target, sorted, item)),
        placed(target, sorted, item).to_multiset() =~= sorted.to_multiset().insert(item),
        placed(target, sorted, item).len() == sorted.len() + 1,
        node_distance(target, placed(target, sorted, item).last()) >= node_distance(target, item),
        sorted.len() > 0 ==> node_distance(target, placed(target, sorted, item).last())
            >= node_distance(target, sorted.last()),
        sorted.len() > 0 ==> placed(target, sorted, item).last() == item || placed(
            target,
            sorted,
            item,
        ).last() == sorted.last(),
    decreases sorted.len(),
{
    broadcast use vstd::seq_lib::group_to_multiset_ensures;

    if sorted.len() == 0 {
    } else if node_distance(target, sorted.last()) <= node_distance(target, item) {
        let all = sorted.push(item);
        assert forall|i: int, j: int| 0 <= i < j < all.len() implies node_distance(
            target,
            #[trigger] all[i],
        ) <= node_distance(target, #[trigger] all[j]) by {
            assert(node_distance(target, sorted[i]) <= node_distance(target, sorted.last())) by {
                if i < sorted.len() - 1 {
                    assert(sorted[sorted.len() - 1] == sorted.last());
                }
            }
            if j < sorted.len() {
                assert(node_distance(target, sorted[i]) <= node_distance(target, sorted[j]));
            }
        }
    } else {
        let init = sorted.drop_last();
        let last = sorted.last();
        assert(is_by_distance(target, init)) by {
            assert forall|i: int, j: int| 0 <= i < j < init.len() implies node_distance(
                target,
                #[trigger] init[i],
            ) <= node_distance(target, #[trigger] init[j]) by {
                assert(node_distance(target, sorted[i]) <= node_distance(target, sorted[j]));
            }
        }
        placed_sorted(target, init, item);
        let rest = placed(target, init, item);
        assert(sorted =~= init.push(last));
        assert(rest.push(last).to_multiset() =~= sorted.to_multiset().insert(item));
        assert(node_distance(target, rest.last()) <= node_distance(target, last)) by {
            if init.len() > 0 && rest.last() == init.last() {
                assert(node_distance(target, sorted[sorted.len() - 2]) <= node_distance(
                    target,
                    sorted[sorted.len() - 1],
                ));
            }
        }
        let all = rest.push(last);
        assert forall|i: int, j: int| 0 <= i < j < all.len() implies node_distance(
            target,
            #[trigger] all[i],
        ) <= node_distance(target, #[trigger] all[j]) by {
            assert(node_distance(target, rest[i]) <= node_distance(target, rest.last())) by {
                if i < rest.len() - 1 {
                    assert(rest[rest.len() - 1] == rest.last());
                }
            }
            if j < rest.len() {
                assert(node_distance(target, rest[i]) <= node_distance(target, rest[j]));
            }
        }
    }
}

/// The nodes of a bucket come in the order of their distance to the target,
/// and all of them come.
pub proof fn bucket_is_sorted<'a, TKey: AsKeyBytes, TVal>(
    target: KeyBytes,
    items: Seq<(&'a Node<TKey, TVal>, NodeStatus)>,
)
    ensures
        is_by_distance(target, by_distance(target, items)),
        by_distance(target, items).to_multiset() == items.to_multiset(),
    decreases items.len(),
{
    broadcast use vstd::seq_lib::group_to_multiset_ensures;

    if items.len() > 0 {
        bucket_is_sorted(target, items.drop_last());
        placed_sorted(target, by_distance(target, items.drop_last()), items.last());
        assert(items =~= items.drop_last().push(items.last()));
    }
}

/// Whether a node lies at the given distance to the target.
pub open spec fn lies_at<'a, TKey: AsKeyBytes, TVal>(target: KeyBytes, distance: nat) -> spec_fn(
    (&'a Node<TKey, TVal>, NodeStatus),
) -> bool {
    |item: (&'a Node<TKey, TVal>, NodeStatus)| node_distance(target, item) == distance
}

proof fn placed_stable<'a, TKey: AsKeyBytes, TVal>(
    target: KeyBytes,
    sorted: Seq<(&'a Node<TKey, TVal>, NodeStatus)>,
    item: (&'a Node<TKey, TVal>, NodeStatus),
    distance: nat,
)
    ensures
        placed(target, sorted, item).filter(lies_at(target, distance)) == sorted.push(item).filter(
            lies_at(target, distance),
        ),
    decreases sorted.len(),
{
    broadcast use Seq::lemma_filter_push;

    let p = lies_at::<TKey, TVal>(target, distance);
    if !(sorted.len() == 0 || node_distance(target, sorted.last()) <= node_distance(target, item)) {
        let init = sorted.drop_last();
        placed_stable(target, init, item, distance);
        assert(sorted =~= init.push(sorted.last()));
        assert(!(p(item) && p(sorted.last())));
    }
}

/// Nodes at the same distance to the target come in the order in which the
/// bucket holds them.
pub proof fn bucket_sort_is_stable<'a, TKey: AsKeyBytes, TVal>(
    target: KeyBytes,
    items: Seq<(&'a Node<TKey, TVal>, NodeStatus)>,
    distance: nat,
)
    ensures
        by_distance(target, items).filter(lies_at(target, distance)) == items.filter(
            lies_at(target, distance),
        ),
    decreases items.len(),
{
    broadcast use Seq::lemma_filter_push;

    if items.len() > 0 {
        let init = items.drop_last();
        bucket_sort_is_stable(target, init, distance);
        placed_stable(target, by_distance(target, init), items.last(), distance);
        assert(items =~= init.push(items.last()));
    } else {
        assert(by_distance(target, items) =~= items);
    }
}

/// The nodes of one bucket of a slot, those closest to the target first.
pub open spec fn slot_list<'a, TKey: AsKeyBytes + Clone, TVal: Clone>(
    table: &'a KBucketsTable<TKey, TVal>,
    target: KeyBytes,
    idx: BucketIndex,
    weighted: bool,
) -> Seq<(&'a Node<TKey, TVal>, NodeStatus)> {
    let slot = &table.buckets@[idx.0 as int];
    by_distance(
        target,
        if weighted {
            entry_refs(&slot.weighted)
        } else {
            entry_refs(&slot.swamp)
        },
    )
}

/// The nodes of the buckets that a walk is still to enter.
pub open spec fn nodes_ahead<'a, TKey: AsKeyBytes + Clone, TVal: Clone>(
    table: &'a KBucketsTable<TKey, TVal>,
    target: KeyBytes,
    order: Seq<BucketIndex>,
    weighted: bool,
) -> Multiset<(&'a Node<TKey, TVal>, NodeStatus)>
    decreases order.len(),
{
    if order.len() == 0 {
        Multiset::empty()
    } else {
        slot_list(table, target, order[0], weighted).to_multiset().add(
            nodes_ahead(table, target, order.skip(1), weighted),
        )
    }
}

/// The nodes of the buckets that a walk is still to enter, in the order in which
/// it enters them, those of each bucket by their distance to the target.
pub open spec fn lists_ahead<'a, TKey: AsKeyBytes + Clone, TVal: Clone>(
    table: &'a KBucketsTable<TKey, TVal>,
    target: KeyBytes,
    order: Seq<BucketIndex>,
    weighted: bool,
) -> Seq<(&'a Node<TKey, TVal>, NodeStatus)>
    decreases order.len(),
{
    if order.len() == 0 {
        Seq::empty()
    } else {
        slot_list(table, target, order[0], weighted) + lists_ahead(
            table,
            target,
            order.skip(1),
            weighted,
        )
    }
}

/// What is left of the bucket that a walk is in.
pub open spec fn list_here<'a, TKey, TVal>(
    list: Option<Seq<(&'a Node<TKey, TVal>, NodeStatus)>>,
) -> Seq<(&'a Node<TKey, TVal>, NodeStatus)> {
    match list {
        Some(list) => list,
        None => Seq::empty(),
    }
}

/// The weighted nodes that a walk has not come to so far, in the order of their
/// lists.
pub open spec fn weighted_rest<'a, TKey: AsKeyBytes + Clone, TVal: Clone>(
    t: Traversal<'a, TKey, TVal>,
) -> Seq<(&'a Node<TKey, TVal>, NodeStatus)> {
    list_here(t.weighted) + lists_ahead(t.table, t.target, t.weighted_order, true)
}

/// The nodes of the swamp that a walk has not come to so far, in the order of
/// their lists.
pub open spec fn swamp_rest<'a, TKey: AsKeyBytes + Clone, TVal: Clone>(
    t: Traversal<'a, TKey, TVal>,
) -> Seq<(&'a Node<TKey, TVal>, NodeStatus)> {
    list_here(t.swamp) + lists_ahead(t.table, t.target, t.swamp_order, false)
}

/// All nodes that a walk has not come to so far.
pub open spec fn nodes_left<'a, TKey: AsKeyBytes + Clone, TVal: Clone>(
    t: Traversal<'a, TKey, TVal>,
) -> Multiset<(&'a Node<TKey, TVal>, NodeStatus)> {
    weighted_rest(t).to_multiset().add(swamp_rest(t).to_multiset())
}

/// What holds of a walk that takes its turns one after the other: it leaves a
/// weighted bucket only when nothing is left there, turns to the swamp for
/// good only when no weighted bucket is left, and ends when nothing is left.
pub open spec fn is_thorough<'a, TKey: AsKeyBytes + Clone, TVal: Clone>(
    t: Traversal<'a, TKey, TVal>,
) -> bool {
    match t.state {
        State::Nowhere => t.weighted_head() is None,
        State::Weighted(_) => t.weighted is Some,
        State::Back(_) => t.weighted is Some,
        State::Swamp { saved: Some(_) } => t.weighted is Some,
        State::Swamp { saved: None } => t.weighted_head() is None && t.weighted_order.len() == 0,
        State::Empty => {
            &&& t.weighted_head() is None
            &&& t.weighted_order.len() == 0
            &&& t.swamp_head() is None
            &&& t.swamp_order.len() == 0
        },
    }
}

/// Whether a walk with the next `item` ahead of `after` has the lists
/// `weighted` and `swamp` ahead.
pub open spec fn takes_next<'a, TKey: AsKeyBytes + Clone, TVal: Clone>(
    item: (&'a Node<TKey, TVal>, NodeStatus),
    after: Traversal<'a, TKey, TVal>,
    weighted: Seq<(&'a Node<TKey, TVal>, NodeStatus)>,
    swamp: Seq<(&'a Node<TKey, TVal>, NodeStatus)>,
) -> bool {
    ||| weighted == seq![item] + weighted_rest(after) && swamp == swamp_rest(after)
    ||| weighted == weighted_rest(after) && swamp == seq![item] + swamp_rest(after)
}

/// Whether a turn with the lists `weighted` and `swamp` ahead takes the first
/// node of one of them, or ends with nothing left.
pub open spec fn accounts_for<'a, TKey: AsKeyBytes + Clone, TVal: Clone>(
    turn: Turn<'a, TKey, TVal>,
    weighted: Seq<(&'a Node<TKey, TVal>, NodeStatus)>,
    swamp: Seq<(&'a Node<TKey, TVal>, NodeStatus)>,
) -> bool {
    match turn {
        Turn::Yield(item, after) => is_thorough(after) && takes_next(item, after, weighted, swamp),
        Turn::End(after) => {
            &&& is_thorough(after)
            &&& weighted.len() == 0
            &&& swamp.len() == 0
            &&& weighted_rest(after) == weighted
            &&& swamp_rest(after) == swamp
        },
    }
}

pub(crate) proof fn swamp_entered<'a, TKey: AsKeyBytes + Clone, TVal: Clone>(
    t: Traversal<'a, TKey, TVal>,
)
    requires
        t.swamp_head() is None,
    ensures
        swamp_rest(t.enter_swamp()) == swamp_rest(t),
        weighted_rest(t.enter_swamp()) == weighted_rest(t),
{
    assert(list_here(t.swamp) =~= Seq::empty());
    assert(swamp_rest(t.enter_swamp()) =~= swamp_rest(t));
}

pub(crate) proof fn weighted_entered<'a, TKey: AsKeyBytes + Clone, TVal: Clone>(
    t: Traversal<'a, TKey, TVal>,
)
    requires
        t.weighted_head() is None,
    ensures
        weighted_rest(t.enter_weighted()) == weighted_rest(t),
        swamp_rest(t.enter_weighted()) == swamp_rest(t),
{
    assert(list_here(t.weighted) =~= Seq::empty());
    assert(weighted_rest(t.enter_weighted()) =~= weighted_rest(t));
}

proof fn swamp_taken<'a, TKey: AsKeyBytes + Clone, TVal: Clone>(t: Traversal<'a, TKey, TVal>)
    requires
        t.swamp_head() is Some,
    ensures
        swamp_rest(t) == seq![t.swamp_head()->0] + swamp_rest(t.swamp_tail()),
        weighted_rest(t) == weighted_rest(t.swamp_tail()),
{
    assert(swamp_rest(t) =~= seq![t.swamp_head()->0] + swamp_rest(t.swamp_tail()));
}

pub(crate) proof fn weighted_taken<'a, TKey: AsKeyBytes + Clone, TVal: Clone>(
    t: Traversal<'a, TKey, TVal>,
)
    requires
        t.weighted_head() is Some,
    ensures
        weighted_rest(t) == seq![t.weighted_head()->0] + weighted_rest(t.weighted_tail()),
        swamp_rest(t) == swamp_rest(t.weighted_tail()),
{
    assert(weighted_rest(t) =~= seq![t.weighted_head()->0] + weighted_rest(t.weighted_tail()));
}

pub(crate) proof fn drain_accounts<'a, TKey: AsKeyBytes + Clone, TVal: Clone>(
    t: Traversal<'a, TKey, TVal>,
)
    requires
        t.weighted_head() is None,
        t.weighted_order.len() == 0,
    ensures
        accounts_for(t.drain(), weighted_rest(t), swamp_rest(t)),
        weighted_rest(t).len() == 0,
    decreases t.swamp_order.len(),
{
    if t.swamp is None {
        swamp_entered(t);
    }
    let v = t.at_swamp();
    if v.swamp_head() is Some {
        swamp_taken(v);
    } else if v.swamp_order.len() > 0 {
        swamp_entered(v);
        drain_accounts(v.enter_swamp());
    }
}

pub(crate) proof fn decide_accounts<'a, TKey: AsKeyBytes + Clone, TVal: Clone>(
    t: Traversal<'a, TKey, TVal>,
)
    requires
        t.weighted_head() is None,
    ensures
        accounts_for(t.decide(), weighted_rest(t), swamp_rest(t)),
    decreases t.weighted_order.len(),
{
    if t.weighted_order.len() == 0 {
        drain_accounts(t);
    } else {
        weighted_entered(t);
        let v = t.enter_weighted();
        if v.weighted_head() is Some {
            weighted_taken(v);
        } else {
            decide_accounts(v);
        }
    }
}

proof fn pursue_accounts<'a, TKey: AsKeyBytes + Clone, TVal: Clone>(
    t: Traversal<'a, TKey, TVal>,
    progress: Progress,
)
    requires
        t.weighted is Some,
    ensures
        accounts_for(t.pursue(progress), weighted_rest(t), swamp_rest(t)),
{
    if t.weighted_head() is Some {
        weighted_taken(t);
    } else {
        decide_accounts(t);
    }
}

proof fn detour_accounts<'a, TKey: AsKeyBytes + Clone, TVal: Clone>(
    t: Traversal<'a, TKey, TVal>,
    progress: Progress,
)
    requires
        t.weighted is Some,
    ensures
        accounts_for(t.detour(progress), weighted_rest(t), swamp_rest(t)),
    decreases t.swamp_order.len(),
{
    if t.swamp is None {
        swamp_entered(t);
    }
    let v = t.at_swamp();
    if v.swamp_head() is Some {
        swamp_taken(v);
    } else if v.swamp_order.len() > 0 {
        swamp_entered(v);
        detour_accounts(v.enter_swamp(), progress);
    } else {
        pursue_accounts(v, progress);
    }
}

/// Every turn of a walk takes the next node of the weighted lists or the next
/// one of the swamp lists, and a walk ends only when none is left.
pub proof fn every_turn_takes_next<'a, TKey: AsKeyBytes + Clone, TVal: Clone>(
    t: Traversal<'a, TKey, TVal>,
)
    requires
        is_thorough(t),
    ensures
        accounts_for(t.turn(), weighted_rest(t), swamp_rest(t)),
{
    match t.state {
        State::Nowhere => {
            decide_accounts(t);
        },
        State::Weighted(progress) => {
            if progress.got < progress.need {
                pursue_accounts(t, progress);
            } else {
                detour_accounts(t, progress);
            }
        },
        State::Back(progress) => {
            pursue_accounts(t, progress);
        },
        State::Swamp { saved: Some(progress) } => {
            detour_accounts(t, progress);
        },
        State::Swamp { saved: None } => {
            drain_accounts(t);
        },
        State::Empty => {},
    }
}

/// Every turn of a walk takes exactly one of the nodes that are left, and a
/// walk ends only when none is left: no node comes twice, and none is missed.
pub proof fn every_node_comes_once<'a, TKey: AsKeyBytes + Clone, TVal: Clone>(
    t: Traversal<'a, TKey, TVal>,
)
    requires
        is_thorough(t),
    ensures
        match t.turn() {
            Turn::Yield(item, after) => is_thorough(after) && nodes_left(t) == nodes_left(
                after,
            ).insert(item),
            Turn::End(after) => is_thorough(after) && nodes_left(t) == Multiset::<
                (&'a Node<TKey, TVal>, NodeStatus),
            >::empty() && nodes_left(after) == nodes_left(t),
        },
{
    broadcast use vstd::seq_lib::group_to_multiset_ensures;

    every_turn_takes_next(t);
    match t.turn() {
        Turn::Yield(item, after) => {
            if weighted_rest(t) == seq![item] + weighted_rest(after) && swamp_rest(t) == swamp_rest(
                after,
            ) {
                first_node_counts(item, weighted_rest(after));
            } else {
                first_node_counts(item, swamp_rest(after));
            }
            assert(nodes_left(t) =~= nodes_left(after).insert(item));
        },
        Turn::End(after) => {
            assert(weighted_rest(t) =~= Seq::empty());
            assert(swamp_rest(t) =~= Seq::empty());
            assert(nodes_left(t) =~= Multiset::empty());
        },
    }
}

proof fn first_node_counts<'a, TKey, TVal>(
    item: (&'a Node<TKey, TVal>, NodeStatus),
    rest: Seq<(&'a Node<TKey, TVal>, NodeStatus)>,
)
    ensures
        (seq![item] + rest).to_multiset() =~= rest.to_multiset().insert(item),
{
    broadcast use vstd::seq_lib::group_to_multiset_ensures;

    let all = seq![item] + rest;
    assert(all.remove(0) =~= rest);
    assert(all[0] == item);
    assert(all.to_multiset().contains(all[0]));
}

proof fn lists_hold_nodes<'a, TKey: AsKeyBytes + Clone, TVal: Clone>(
    table: &'a KBucketsTable<TKey, TVal>,
    target: KeyBytes,
    order: Seq<BucketIndex>,
    weighted: bool,
)
    ensures
        lists_ahead(table, target, order, weighted).to_multiset() == nodes_ahead(
            table,
            target,
            order,
            weighted,
        ),
    decreases order.len(),
{
    broadcast use vstd::seq_lib::group_to_multiset_ensures;

    if order.len() > 0 {
        lists_hold_nodes(table, target, order.skip(1), weighted);
        vstd::seq_lib::lemma_multiset_commutative(
            slot_list(table, target, order[0], weighted),
            lists_ahead(table, target, order.skip(1), weighted),
        );
    }
}

/// The nodes of the first `n` slots of a table.
pub open spec fn nodes_in_slots<'a, TKey: AsKeyBytes + Clone, TVal: Clone>(
    table: &'a KBucketsTable<TKey, TVal>,
    n: int,
) -> Multiset<(&'a Node<TKey, TVal>, NodeStatus)>
    decreases n,
{
    if n <= 0 {
        Multiset::empty()
    } else {
        nodes_in_slots(table, n - 1).add(
            entry_refs(&table.buckets@[n - 1].weighted).to_multiset(),
        ).add(entry_refs(&table.buckets@[n - 1].swamp).to_multiset())
    }
}

proof fn bucket_brought_forward<'a, TKey: AsKeyBytes + Clone, TVal: Clone>(
    table: &'a KBucketsTable<TKey, TVal>,
    target: KeyBytes,
    order: Seq<BucketIndex>,
    weighted: bool,
    k: int,
)
    requires
        0 <= k < order.len(),
    ensures
        nodes_ahead(table, target, order, weighted) == slot_list(
            table,
            target,
            order[k],
            weighted,
        ).to_multiset().add(nodes_ahead(table, target, order.remove(k), weighted)),
    decreases order.len(),
{
    if k == 0 {
        assert(order.remove(0) =~= order.skip(1));
    } else {
        bucket_brought_forward(table, target, order.skip(1), weighted, k - 1);
        assert(order.remove(k).skip(1) =~= order.skip(1).remove(k - 1));
        assert(order.remove(k)[0] == order[0]);
        assert(nodes_ahead(table, target, order, weighted) =~= slot_list(
            table,
            target,
            order[k],
            weighted,
        ).to_multiset().add(nodes_ahead(table, target, order.remove(k), weighted)));
    }
}

proof fn order_does_not_matter<'a, TKey: AsKeyBytes + Clone, TVal: Clone>(
    table: &'a KBucketsTable<TKey, TVal>,
    target: KeyBytes,
    order: Seq<BucketIndex>,
    n: int,
)
    requires
        0 <= n <= NUM_BUCKETS,
        order.no_duplicates(),
        forall|b: BucketIndex| #[trigger] order.contains(b) <==> b.0 < n,
    ensures
        nodes_ahead(table, target, order, true).add(nodes_ahead(table, target, order, false))
            == nodes_in_slots(table, n),
    decreases n,
{
    if n == 0 {
        assert(order.len() == 0) by {
            if order.len() > 0 {
                assert(order.contains(order[0]));
            }
        }
        assert(nodes_ahead(table, target, order, true).add(
            nodes_ahead(table, target, order, false),
        ) =~= nodes_in_slots(table, n));
    } else {
        let last = BucketIndex((n - 1) as usize);
        assert(order.contains(last));
        let k = order.index_of(last);
        let rest = order.remove(k);
        bucket_brought_forward(table, target, order, true, k);
        bucket_brought_forward(table, target, order, false, k);
        assert forall|b: BucketIndex| #[trigger] rest.contains(b) <==> b.0 < n - 1 by {
            if rest.contains(b) {
                let i = rest.index_of(b);
                if i < k {
                    assert(order[i] == b);
                } else {
                    assert(order[i + 1] == b);
                }
                assert(order.contains(b));
            }
            if b.0 < n - 1 {
                assert(order.contains(b));
                let i = order.index_of(b);
                if i < k {
                    assert(rest[i] == b);
                } else {
                    assert(rest[i - 1] == b);
                }
            }
        }
        assert(rest.no_duplicates());
        order_does_not_matter(table, target, rest, n - 1);
        bucket_is_sorted(target, entry_refs(&table.buckets@[n - 1].weighted));
        bucket_is_sorted(target, entry_refs(&table.buckets@[n - 1].swamp));
        assert(nodes_ahead(table, target, order, true).add(
            nodes_ahead(table, target, order, false),
        ) =~= nodes_in_slots(table, n));
    }
}

/// Whether a walk over a table has not begun.
pub open spec fn is_fresh<'a, TKey, TVal>(t: Traversal<'a, TKey, TVal>) -> bool {
    t.state == State::Nowhere && t.weighted is None && t.swamp is None
}

/// At the start of a walk all nodes of the table are left.
pub proof fn walk_starts_with_all_nodes<'a, TKey: AsKeyBytes + Clone, TVal: Clone>(
    t: Traversal<'a, TKey, TVal>,
    distance: Distance,
)
    requires
        is_fresh(t),
        t.weighted_order == visit_order(distance),
        t.swamp_order == visit_order(distance),
    ensures
        is_thorough(t),
        weighted_rest(t) == lists_ahead(t.table, t.target, visit_order(distance), true),
        swamp_rest(t) == lists_ahead(t.table, t.target, visit_order(distance), false),
        nodes_left(t) == nodes_in_slots(t.table, NUM_BUCKETS as int),
{
    visits_every_bucket_once(distance);
    assert(weighted_rest(t) =~= lists_ahead(t.table, t.target, visit_order(distance), true));
    assert(swamp_rest(t) =~= lists_ahead(t.table, t.target, visit_order(distance), false));
    lists_hold_nodes(t.table, t.target, visit_order(distance), true);
    lists_hold_nodes(t.table, t.target, visit_order(distance), false);
    order_does_not_matter(t.table, t.target, visit_order(distance), NUM_BUCKETS as int);
    assert(nodes_left(t) =~= nodes_in_slots(t.table, NUM_BUCKETS as int));
}

/// A walk that has come to its end stays there.
pub proof fn end_is_final<'a, TKey: AsKeyBytes + Clone, TVal: Clone>(
    t: Traversal<'a, TKey, TVal>,
    after: Traversal<'a, TKey, TVal>,
)
    requires
        t.turn() == Turn::End(after),
    ensures
        after.turn() == Turn::End(after),
{
    match t.state {
        State::Nowhere => {
            decide_ends_empty(t);
        },
        State::Weighted(progress) => {
            if progress.got < progress.need {
                decide_ends_empty(t.at_weighted());
            } else {
                detour_ends_empty(t, progress);
            }
        },
        State::Back(progress) => {
            decide_ends_empty(t.at_weighted());
        },
        State::Swamp { saved: Some(progress) } => {
            detour_ends_empty(t, progress);
        },
        State::Swamp { saved: None } => {
            drain_ends_empty(t);
        },
        State::Empty => {},
    }
}

proof fn drain_ends_empty<'a, TKey: AsKeyBytes + Clone, TVal: Clone>(t: Traversal<'a, TKey, TVal>)
    ensures
        t.drain() matches Turn::End(after) ==> after.state == State::Empty,
    decreases t.swamp_order.len(),
{
    let v = t.at_swamp();
    if v.swamp_head() is None && v.swamp_order.len() > 0 {
        drain_ends_empty(v.enter_swamp());
    }
}

proof fn decide_ends_empty<'a, TKey: AsKeyBytes + Clone, TVal: Clone>(t: Traversal<'a, TKey, TVal>)
    ensures
        t.decide() matches Turn::End(after) ==> after.state == State::Empty,
    decreases t.weighted_order.len(),
{
    if t.weighted_order.len() == 0 {
        drain_ends_empty(t);
    } else {
        decide_ends_empty(t.enter_weighted());
    }
}

proof fn detour_ends_empty<'a, TKey: AsKeyBytes + Clone, TVal: Clone>(
    t: Traversal<'a, TKey, TVal>,
    progress: Progress,
)
    ensures
        t.detour(progress) matches Turn::End(after) ==> after.state == State::Empty,
    decreases t.swamp_order.len(),
{
    let v = t.at_swamp();
    if v.swamp_head() is None {
        if v.swamp_order.len() > 0 {
            detour_ends_empty(v.enter_swamp(), progress);
        } else {
            decide_ends_empty(v.at_weighted());
        }
    }
}

/// Once the quota of a weighted bucket is met, a turn takes a single node of
/// the swamp, and the next turn takes one of the weighted bucket, if one is left
/// there.
pub proof fn swamp_gives_one_at_a_time<'a, TKey: AsKeyBytes + Clone, TVal: Clone>(
    t: Traversal<'a, TKey, TVal>,
    progress: Progress,
)
    requires
        t.state == State::Weighted(progress),
        t.weighted is Some,
        progress.got >= progress.need,
        swamp_rest(t).len() > 0,
    ensures
        t.turn() matches Turn::Yield(item, after) && {
            &&& item == swamp_rest(t)[0]
            &&& after.state == State::Back(progress)
            &&& after.weighted == t.weighted
            &&& after.weighted_order == t.weighted_order
            &&& t.weighted_head() matches Some(next) ==> (after.turn() matches Turn::Yield(
                item,
                _,
            ) && item == next)
        },
{
    detour_takes_swamp(t, progress);
}

pub(crate) proof fn detour_takes_swamp<'a, TKey: AsKeyBytes + Clone, TVal: Clone>(
    t: Traversal<'a, TKey, TVal>,
    progress: Progress,
)
    requires
        swamp_rest(t).len() > 0,
    ensures
        t.detour(progress) matches Turn::Yield(item, after) && {
            &&& item == swamp_rest(t)[0]
            &&& after.state == State::Back(progress)
            &&& after.weighted == t.weighted
            &&& after.weighted_order == t.weighted_order
            &&& after.table == t.table
            &&& after.target == t.target
            &&& after.start == t.start
            &&& swamp_rest(t) == seq![item] + swamp_rest(after)
        },
    decreases t.swamp_order.len(),
{
    if t.swamp is None {
        swamp_entered(t);
    }
    let v = t.at_swamp();
    if v.swamp_head() is Some {
        swamp_taken(v);
    } else if v.swamp_order.len() > 0 {
        swamp_entered(v);
        detour_takes_swamp(v.enter_swamp(), progress);
    }
}

/// When the swamp is used up, the nodes that are left in a weighted bucket are
/// drained, whether its quota is met or not.
pub proof fn weighted_is_drained<'a, TKey: AsKeyBytes + Clone, TVal: Clone>(
    t: Traversal<'a, TKey, TVal>,
)
    requires
        t.has_progress(),
        t.weighted_head() is Some,
        swamp_rest(t).len() == 0,
    ensures
        t.turn() matches Turn::Yield(item, after) && {
            &&& item == t.weighted_head()->0
            &&& after.has_progress()
            &&& after.weighted == t.weighted_tail().weighted
            &&& after.weighted_order == t.weighted_order
            &&& swamp_rest(after).len() == 0
        },
{
    match t.state {
        State::Weighted(progress) => {
            detour_drains(t, progress);
        },
        State::Swamp { saved: Some(progress) } => {
            detour_drains(t, progress);
        },
        _ => {},
    }
}

proof fn detour_drains<'a, TKey: AsKeyBytes + Clone, TVal: Clone>(
    t: Traversal<'a, TKey, TVal>,
    progress: Progress,
)
    requires
        t.weighted_head() is Some,
        swamp_rest(t).len() == 0,
    ensures
        t.detour(progress) matches Turn::Yield(item, after) && {
            &&& item == t.weighted_head()->0
            &&& after.state == State::Weighted(progress.one_more())
            &&& after.weighted == t.weighted_tail().weighted
            &&& after.weighted_order == t.weighted_order
            &&& swamp_rest(after).len() == 0
        },
    decreases t.swamp_order.len(),
{
    if t.swamp is None {
        swamp_entered(t);
    }
    let v = t.at_swamp();
    if v.swamp_order.len() > 0 {
        swamp_entered(v);
        detour_drains(v.enter_swamp(), progress);
    }
}

} // verus!
