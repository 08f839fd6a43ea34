//! How a walk over a routing table takes turns between a weighted bucket and the swamp.

use vstd::arithmetic::div_mod::lemma_basic_div;
use vstd::arithmetic::power2::{lemma2_to64, lemma_pow2_strictly_increases, pow2};
use vstd::prelude::*;

use crate::kbucket::bucket::Bucket;
use crate::kbucket::bucketable::{Bucketable, Node, NodeStatus};
use crate::kbucket::closest::BucketIndex;
use crate::kbucket::entry_refs;
use crate::kbucket::key::AsKeyBytes;
use crate::kbucket::traversal::{gap, quota, Progress, State, Traversal, Turn};
use crate::kbucket::walk_laws::{outputs, walked};
use crate::kbucket::weighted_laws::{detour_takes_swamp, slot_list, swamp_rest};

verus! {

/// The quota is four for the bucket that covers the target, two for its neighbours, one for
/// theirs, and zero for all others.
pub proof fn quota_by_distance(start: BucketIndex, idx: BucketIndex)
    ensures
        start.0 == idx.0 ==> quota(start, idx) == 4,
        start.0 == idx.0 + 1 || idx.0 == start.0 + 1 ==> quota(start, idx) == 2,
        start.0 == idx.0 + 2 || idx.0 == start.0 + 2 ==> quota(start, idx) == 1,
        start.0 > idx.0 + 2 || idx.0 > start.0 + 2 ==> quota(start, idx) == 0,
{
    lemma2_to64();
    let n = gap(start, idx) + 2;
    assert(16nat / 4nat == 4 && 16nat / 8nat == 2 && 16nat / 16nat == 1);
    if n > 5 {
        lemma_pow2_strictly_increases(5, n);
    }
    if n > 4 {
        lemma_basic_div(16, pow2(n) as int);
    }
}

/// A bucket is read as its entries, in their order, each with its status.
pub proof fn entries_are_read<'a, TKey: AsKeyBytes + Clone, TVal: Clone>(
    bucket: &'a Bucket<TKey, TVal>,
)
    ensures
        entry_refs(bucket).len() == bucket.contents().entries.len(),
        forall|i: int|
            0 <= i < bucket.contents().entries.len() ==> *(#[trigger] entry_refs(bucket)[i]).0
                == bucket.contents().entries[i].0 && entry_refs(bucket)[i].1
                == bucket.contents().entries[i].1,
{
}

/// How many nodes of a weighted bucket come in a row before one of the swamp, where there are
/// enough: its quota, and at least one.
pub open spec fn in_a_row(start: BucketIndex, idx: BucketIndex) -> nat {
    let d = start.0 - idx.0;
    if d == 0 {
        4
    } else if d == 1 || d == -1 {
        2
    } else {
        1
    }
}

proof fn outputs_add_up<'a, TKey: AsKeyBytes + Clone, TVal: Clone>(
    t: Traversal<'a, TKey, TVal>,
    a: nat,
    b: nat,
)
    requires
        outputs(t, a).len() == a,
    ensures
        outputs(t, a + b) == outputs(t, a) + outputs(walked(t, a), b),
        walked(t, a + b) == walked(walked(t, a), b),
    decreases a,
{
    if a > 0 {
        match t.turn() {
            Turn::Yield(item, after) => {
                let c = (a - 1) as nat;
                assert((a + b - 1) as nat == c + b);
                assert(outputs(t, a) =~= seq![item] + outputs(after, c));
                outputs_add_up(after, c, b);
                assert(outputs(t, a + b) =~= outputs(t, a) + outputs(walked(t, a), b));
            },
            Turn::End(_) => {
                assert(outputs(t, a).len() == 0);
            },
        }
    } else {
        assert(outputs(t, a) + outputs(walked(t, a), b) =~= outputs(t, b));
    }
}

proof fn unmet_quota_goes_on<'a, TKey: AsKeyBytes + Clone, TVal: Clone>(
    t: Traversal<'a, TKey, TVal>,
    list: Seq<(&'a Node<TKey, TVal>, NodeStatus)>,
    progress: Progress,
    n: nat,
)
    requires
        t.state == State::Weighted(progress),
        t.weighted == Some(list),
        progress.got + n <= progress.need,
        n <= list.len(),
    ensures
        outputs(t, n) == list.take(n as int),
        walked(t, n) == (Traversal {
            state: State::Weighted(
                Progress { got: (progress.got + n) as usize, need: progress.need },
            ),
            weighted: Some(list.skip(n as int)),
            ..t
        }),
    decreases n,
{
    if n > 0 {
        let next = progress.one_more();
        let after = Traversal {
            state: State::Weighted(next),
            weighted: Some(list.skip(1)),
            ..t
        };
        assert(t.turn() == Turn::Yield(list[0], after));
        unmet_quota_goes_on(after, list.skip(1), next, (n - 1) as nat);
        assert(list.skip(1).skip(n - 1) =~= list.skip(n as int));
        assert(seq![list[0]] + list.skip(1).take(n - 1) =~= list.take(n as int));
    } else {
        assert(list.skip(0) =~= list);
        assert(outputs(t, n) =~= list.take(0));
    }
}

/// Whether nodes come in turns, one of the swamp first.
pub open spec fn comes_in_turns<'a, TKey, TVal>(
    come: Seq<(&'a Node<TKey, TVal>, NodeStatus)>,
    swamp: Seq<(&'a Node<TKey, TVal>, NodeStatus)>,
    weighted: Seq<(&'a Node<TKey, TVal>, NodeStatus)>,
    n: nat,
) -> bool {
    &&& come.len() == 2 * n
    &&& forall|i: int|
        0 <= i < n ==> come[2 * i] == #[trigger] swamp[i] && come[2 * i + 1] == weighted[i]
}

proof fn met_quota_takes_turns<'a, TKey: AsKeyBytes + Clone, TVal: Clone>(
    t: Traversal<'a, TKey, TVal>,
    list: Seq<(&'a Node<TKey, TVal>, NodeStatus)>,
    progress: Progress,
    n: nat,
)
    requires
        t.state == State::Weighted(progress),
        t.weighted == Some(list),
        progress.got >= progress.need,
        n <= list.len(),
        n <= swamp_rest(t).len(),
    ensures
        comes_in_turns(outputs(t, 2 * n), swamp_rest(t), list, n),
    decreases n,
{
    if n > 0 {
        let swamp = swamp_rest(t);
        detour_takes_swamp(t, progress);
        let item = t.turn()->Yield_0;
        let back = t.turn()->Yield_1;
        assert(item == swamp[0]);
        crate::kbucket::weighted_laws::every_turn_takes_next(t);
        crate::kbucket::walk_laws::node_has_one_origin(t);
        assert(back.weighted == t.weighted);
        assert(back.turn() is Yield);
        let after = back.turn()->Yield_1;
        assert(back.turn()->Yield_0 == list[0]);
        assert(after.state == State::Weighted(progress));
        assert(after.weighted == Some(list.skip(1)));
        assert(swamp_rest(back) =~= swamp.skip(1));
        assert(swamp_rest(after) == swamp_rest(back));
        let m = (n - 1) as nat;
        met_quota_takes_turns(after, list.skip(1), progress, m);
        let rest = outputs(after, 2 * m);
        assert((2 * n - 1) as nat == 2 * m + 1);
        assert(outputs(back, 2 * m + 1) == seq![list[0]] + rest);
        assert(outputs(t, 2 * n) == seq![item] + outputs(back, 2 * m + 1));
        let come = outputs(t, 2 * n);
        assert forall|i: int| 0 <= i < n implies come[2 * i] == #[trigger] swamp[i] && come[2 * i
            + 1] == list[i] by {
            if i > 0 {
                assert(swamp.skip(1)[i - 1] == swamp[i]);
                assert(rest[2 * (i - 1)] == swamp.skip(1)[i - 1]);
                assert(rest[2 * (i - 1) + 1] == list.skip(1)[i - 1]);
            }
        }
    }
}

proof fn decide_enters<'a, TKey: AsKeyBytes + Clone, TVal: Clone>(
    t: Traversal<'a, TKey, TVal>,
    i: int,
)
    requires
        0 <= i < t.weighted_order.len(),
        forall|k: int|
            0 <= k < i ==> slot_list(
                t.table,
                t.target,
                #[trigger] t.weighted_order[k],
                true,
            ).len() == 0,
        slot_list(t.table, t.target, t.weighted_order[i], true).len() > 0,
    ensures
        ({
            let list = slot_list(t.table, t.target, t.weighted_order[i], true);
            t.decide() == Turn::Yield(
                list[0],
                Traversal {
                    state: State::Weighted(
                        Progress { got: 1, need: quota(t.start, t.weighted_order[i]) as usize },
                    ),
                    weighted: Some(list.skip(1)),
                    weighted_order: t.weighted_order.skip(i + 1),
                    ..t
                },
            )
        }),
    decreases i,
{
    let v = t.enter_weighted();
    if i > 0 {
        assert(slot_list(t.table, t.target, t.weighted_order[0], true).len() == 0);
        assert forall|k: int| 0 <= k < i - 1 implies slot_list(
            v.table,
            v.target,
            #[trigger] v.weighted_order[k],
            true,
        ).len() == 0 by {
            assert(v.weighted_order[k] == t.weighted_order[k + 1]);
        }
        assert(v.weighted_order[i - 1] == t.weighted_order[i]);
        decide_enters(v, i - 1);
        assert(v.weighted_order.skip(i) =~= t.weighted_order.skip(i + 1));
    }
}

/// From the first weighted bucket ahead that is not empty, a walk takes four nodes if the
/// bucket covers the target, two if it is next to that one, else a single one, or all that
/// there are. From then on it takes one node of the swamp and one of the bucket in turns, as
/// long as there are nodes of both.
pub proof fn bucket_gives_quota_then_takes_turns<'a, TKey: AsKeyBytes + Clone, TVal: Clone>(
    t: Traversal<'a, TKey, TVal>,
    i: int,
    n: nat,
)
    requires
        match t.state {
            State::Nowhere => true,
            State::Weighted(progress) => t.weighted is Some && progress.got < progress.need,
            State::Back(_) => t.weighted is Some,
            _ => false,
        },
        t.weighted_head() is None,
        0 <= i < t.weighted_order.len(),
        forall|k: int|
            0 <= k < i ==> slot_list(
                t.table,
                t.target,
                #[trigger] t.weighted_order[k],
                true,
            ).len() == 0,
        slot_list(t.table, t.target, t.weighted_order[i], true).len() > 0,
    ensures
        ({
            let list = slot_list(t.table, t.target, t.weighted_order[i], true);
            let m = in_a_row(t.start, t.weighted_order[i]);
            &&& list.len() < m ==> outputs(t, list.len()) == list
            &&& list.len() >= m ==> outputs(t, m) == list.take(m as int)
            &&& m + n <= list.len() && n <= swamp_rest(t).len() ==> {
                let come = outputs(t, m + 2 * n);
                come.len() == m + 2 * n && comes_in_turns(
                    come.skip(m as int),
                    swamp_rest(t),
                    list.skip(m as int),
                    n,
                )
            }
        }),
{
    let idx = t.weighted_order[i];
    let list = slot_list(t.table, t.target, idx, true);
    let m = in_a_row(t.start, idx);
    let need = quota(t.start, idx);
    quota_by_distance(t.start, idx);
    assert(m == if need == 0 {
        1
    } else {
        need
    });
    decide_enters(t, i);
    assert(t.turn() == t.decide());
    let first = t.turn()->Yield_1;
    let progress = Progress { got: 1, need: need as usize };
    let k: nat = if list.len() < m {
        (list.len() - 1) as nat
    } else {
        (m - 1) as nat
    };
    if need > 0 {
        unmet_quota_goes_on(first, list.skip(1), progress, k);
    } else {
        assert(list.skip(1).skip(0) =~= list.skip(1));
        assert(outputs(first, 0) =~= list.skip(1).take(0));
    }
    assert(outputs(t, k + 1) == seq![list[0]] + outputs(first, k));
    assert(seq![list[0]] + list.skip(1).take(k as int) =~= list.take((k + 1) as int));
    if list.len() < m {
        assert(list.take((k + 1) as int) =~= list);
    }
    if m + n <= list.len() && n <= swamp_rest(t).len() {
        let then = walked(t, m);
        assert(then == walked(first, k));
        assert(list.skip(1).skip(k as int) =~= list.skip(m as int));
        assert(then.weighted == Some(list.skip(m as int)));
        assert(swamp_rest(then) == swamp_rest(t));
        let p = Progress { got: m as usize, need: need as usize };
        met_quota_takes_turns(then, list.skip(m as int), p, n);
        outputs_add_up(t, m, 2 * n);
        assert(outputs(t, m + 2 * n).skip(m as int) =~= outputs(then, 2 * n));
    }
}

} // verus!
