//! What holds of the nodes that a walk over a routing table comes to, one after
//! the other.

use vstd::prelude::*;

use crate::kbucket::bucketable::{Node, NodeStatus};
use crate::kbucket::closest::BucketIndex;
use crate::kbucket::key::AsKeyBytes;
use crate::kbucket::traversal::{quota, State, Traversal, Turn};
use crate::kbucket::weighted_laws::{
    decide_accounts, detour_takes_swamp, drain_accounts, every_turn_takes_next, is_fresh,
    is_thorough, list_here, lists_ahead, swamp_rest, weighted_entered, weighted_rest,
    weighted_taken,
};

verus! {

/// The walk after `n` turns.
pub open spec fn walked<'a, TKey: AsKeyBytes + Clone, TVal: Clone>(
    t: Traversal<'a, TKey, TVal>,
    n: nat,
) -> Traversal<'a, TKey, TVal>
    decreases n,
{
    if n == 0 {
        t
    } else {
        match t.turn() {
            Turn::Yield(_, after) => walked(after, (n - 1) as nat),
            Turn::End(after) => after,
        }
    }
}

/// The nodes that the first `n` turns of a walk come to.
pub open spec fn outputs<'a, TKey: AsKeyBytes + Clone, TVal: Clone>(
    t: Traversal<'a, TKey, TVal>,
    n: nat,
) -> Seq<(&'a Node<TKey, TVal>, NodeStatus)>
    decreases n,
{
    if n == 0 {
        Seq::empty()
    } else {
        match t.turn() {
            Turn::Yield(item, after) => seq![item] + outputs(after, (n - 1) as nat),
            Turn::End(_) => Seq::empty(),
        }
    }
}

/// Whether the next turn takes a node from the weighted lists.
pub open spec fn takes_weighted<'a, TKey: AsKeyBytes + Clone, TVal: Clone>(
    t: Traversal<'a, TKey, TVal>,
) -> bool {
    t.turn() matches Turn::Yield(_, after) && weighted_rest(after).len() < weighted_rest(t).len()
}

/// Whether the next turn takes a node from the swamp lists.
pub open spec fn takes_swamp<'a, TKey: AsKeyBytes + Clone, TVal: Clone>(
    t: Traversal<'a, TKey, TVal>,
) -> bool {
    t.turn() matches Turn::Yield(_, after) && swamp_rest(after).len() < swamp_rest(t).len()
}

/// The weighted ones among the nodes that the first `n` turns of a walk come
/// to.
pub open spec fn weighted_outputs<'a, TKey: AsKeyBytes + Clone, TVal: Clone>(
    t: Traversal<'a, TKey, TVal>,
    n: nat,
) -> Seq<(&'a Node<TKey, TVal>, NodeStatus)>
    decreases n,
{
    if n == 0 {
        Seq::empty()
    } else {
        match t.turn() {
            Turn::Yield(item, after) => if takes_weighted(t) {
                seq![item] + weighted_outputs(after, (n - 1) as nat)
            } else {
                weighted_outputs(after, (n - 1) as nat)
            },
            Turn::End(_) => Seq::empty(),
        }
    }
}

/// Those of the swamp among the nodes that the first `n` turns of a walk come
/// to.
pub open spec fn swamp_outputs<'a, TKey: AsKeyBytes + Clone, TVal: Clone>(
    t: Traversal<'a, TKey, TVal>,
    n: nat,
) -> Seq<(&'a Node<TKey, TVal>, NodeStatus)>
    decreases n,
{
    if n == 0 {
        Seq::empty()
    } else {
        match t.turn() {
            Turn::Yield(item, after) => if takes_swamp(t) {
                seq![item] + swamp_outputs(after, (n - 1) as nat)
            } else {
                swamp_outputs(after, (n - 1) as nat)
            },
            Turn::End(_) => Seq::empty(),
        }
    }
}

/// Every node that a walk comes to is either a weighted one or one of the swamp.
pub proof fn node_has_one_origin<'a, TKey: AsKeyBytes + Clone, TVal: Clone>(
    t: Traversal<'a, TKey, TVal>,
)
    requires
        is_thorough(t),
    ensures
        t.turn() matches Turn::Yield(item, after) ==> {
            &&& takes_weighted(t) != takes_swamp(t)
            &&& takes_weighted(t) ==> weighted_rest(t) == seq![item] + weighted_rest(after)
                && swamp_rest(t) == swamp_rest(after)
            &&& takes_swamp(t) ==> swamp_rest(t) == seq![item] + swamp_rest(after)
                && weighted_rest(t) == weighted_rest(after)
        },
{
    every_turn_takes_next(t);
}

/// The weighted nodes of a walk come in the order of the weighted lists, those of
/// the swamp in the order of the swamp lists, none of them is passed over, and
/// nothing else comes.
pub proof fn walk_follows_lists<'a, TKey: AsKeyBytes + Clone, TVal: Clone>(
    t: Traversal<'a, TKey, TVal>,
    n: nat,
)
    requires
        is_thorough(t),
    ensures
        is_thorough(walked(t, n)),
        weighted_outputs(t, n).is_prefix_of(weighted_rest(t)),
        swamp_outputs(t, n).is_prefix_of(swamp_rest(t)),
        weighted_rest(t) == weighted_outputs(t, n) + weighted_rest(walked(t, n)),
        swamp_rest(t) == swamp_outputs(t, n) + swamp_rest(walked(t, n)),
        outputs(t, n).len() == weighted_outputs(t, n).len() + swamp_outputs(t, n).len(),
        outputs(t, n).to_multiset() == weighted_outputs(t, n).to_multiset().add(
            swamp_outputs(t, n).to_multiset(),
        ),
    decreases n,
{
    broadcast use vstd::seq_lib::group_to_multiset_ensures;

    every_turn_takes_next(t);
    if n == 0 {
        assert(weighted_rest(t) =~= weighted_outputs(t, n) + weighted_rest(t));
        assert(swamp_rest(t) =~= swamp_outputs(t, n) + swamp_rest(t));
        assert(outputs(t, n).to_multiset() =~= weighted_outputs(t, n).to_multiset().add(
            swamp_outputs(t, n).to_multiset(),
        ));
    } else {
        match t.turn() {
            Turn::Yield(item, after) => {
                let m = (n - 1) as nat;
                node_has_one_origin(t);
                walk_follows_lists(after, m);
                let one = seq![item];
                vstd::seq_lib::lemma_multiset_commutative(one, outputs(after, m));
                vstd::seq_lib::lemma_multiset_commutative(one, weighted_outputs(after, m));
                vstd::seq_lib::lemma_multiset_commutative(one, swamp_outputs(after, m));
                assert(weighted_rest(t) =~= weighted_outputs(t, n) + weighted_rest(walked(t, n)));
                assert(swamp_rest(t) =~= swamp_outputs(t, n) + swamp_rest(walked(t, n)));
                assert(outputs(t, n).to_multiset() =~= weighted_outputs(t, n).to_multiset().add(
                    swamp_outputs(t, n).to_multiset(),
                ));
            },
            Turn::End(after) => {
                assert(weighted_rest(t) =~= weighted_outputs(t, n) + weighted_rest(after));
                assert(swamp_rest(t) =~= swamp_outputs(t, n) + swamp_rest(after));
                assert(outputs(t, n).to_multiset() =~= weighted_outputs(t, n).to_multiset().add(
                    swamp_outputs(t, n).to_multiset(),
                ));
            },
        }
    }
    assert(weighted_outputs(t, n).is_prefix_of(weighted_rest(t)));
    assert(swamp_outputs(t, n).is_prefix_of(swamp_rest(t)));
}

/// Whether no weighted bucket ahead has enough nodes to meet its quota.
pub open spec fn quotas_unmet<'a, TKey: AsKeyBytes + Clone, TVal: Clone>(
    t: Traversal<'a, TKey, TVal>,
) -> bool {
    forall|i: int|
        0 <= i < t.weighted_order.len() ==> {
            let list = t.weighted_list(#[trigger] t.weighted_order[i]);
            list.len() == 0 || list.len() < quota(t.start, t.weighted_order[i])
        }
}

/// What holds of a walk that meets no quota.
spec fn meets_no_quota<'a, TKey: AsKeyBytes + Clone, TVal: Clone>(
    t: Traversal<'a, TKey, TVal>,
) -> bool {
    &&& is_thorough(t)
    &&& quotas_unmet(t)
    &&& match t.state {
        State::Weighted(progress) => progress.got + list_here(t.weighted).len() < progress.need,
        State::Back(_) => false,
        State::Swamp { saved } => saved is None,
        _ => true,
    }
}

/// Whether a turn takes the first node of the weighted lists or, if there is
/// none, the first one of the swamp lists.
spec fn goes_in_order<'a, TKey: AsKeyBytes + Clone, TVal: Clone>(
    t: Traversal<'a, TKey, TVal>,
    turn: Turn<'a, TKey, TVal>,
) -> bool {
    match turn {
        Turn::Yield(item, after) => {
            &&& meets_no_quota(after)
            &&& if weighted_rest(t).len() > 0 {
                weighted_rest(t) == seq![item] + weighted_rest(after) && swamp_rest(t)
                    == swamp_rest(after)
            } else {
                swamp_rest(t) == seq![item] + swamp_rest(after) && weighted_rest(after).len() == 0
            }
        },
        Turn::End(_) => weighted_rest(t).len() == 0 && swamp_rest(t).len() == 0,
    }
}

proof fn quota_fits(start: BucketIndex, idx: BucketIndex)
    ensures
        quota(start, idx) <= 16,
{
    let n = crate::kbucket::traversal::gap(start, idx) + 2;
    vstd::arithmetic::power2::lemma_pow2_pos(n);
    vstd::arithmetic::div_mod::lemma_div_is_ordered_by_denominator(
        16,
        1,
        vstd::arithmetic::power2::pow2(n) as int,
    );
}

proof fn drain_keeps_state<'a, TKey: AsKeyBytes + Clone, TVal: Clone>(
    t: Traversal<'a, TKey, TVal>,
)
    ensures
        t.drain() matches Turn::Yield(_, after) ==> {
            &&& after.state == State::Swamp { saved: None }
            &&& after.weighted_order == t.weighted_order
        },
    decreases t.swamp_order.len(),
{
    let v = t.at_swamp();
    if v.swamp_head() is None && v.swamp_order.len() > 0 {
        drain_keeps_state(v.enter_swamp());
    }
}

proof fn decide_in_order<'a, TKey: AsKeyBytes + Clone, TVal: Clone>(t: Traversal<'a, TKey, TVal>)
    requires
        t.weighted_head() is None,
        quotas_unmet(t),
    ensures
        goes_in_order(t, t.decide()),
    decreases t.weighted_order.len(),
{
    if t.weighted_order.len() == 0 {
        drain_accounts(t);
        drain_keeps_state(t);
    } else {
        weighted_entered(t);
        let v = t.enter_weighted();
        assert(quotas_unmet(v)) by {
            assert forall|i: int| 0 <= i < v.weighted_order.len() implies ({
                let list = v.weighted_list(#[trigger] v.weighted_order[i]);
                list.len() == 0 || list.len() < quota(v.start, v.weighted_order[i])
            }) by {
                assert(v.weighted_order[i] == t.weighted_order[i + 1]);
            }
        }
        if v.weighted_head() is Some {
            weighted_taken(v);
            quota_fits(t.start, t.weighted_order[0]);
            let after = t.decide()->Yield_1;
            assert(quotas_unmet(after));
        } else {
            decide_in_order(v);
        }
    }
}

proof fn turn_in_order<'a, TKey: AsKeyBytes + Clone, TVal: Clone>(t: Traversal<'a, TKey, TVal>)
    requires
        meets_no_quota(t),
    ensures
        goes_in_order(t, t.turn()),
{
    match t.state {
        State::Nowhere => {
            decide_in_order(t);
        },
        State::Weighted(progress) => {
            if t.weighted_head() is Some {
                weighted_taken(t);
                let after = t.turn()->Yield_1;
                assert(quotas_unmet(after));
            } else {
                decide_in_order(t);
            }
        },
        State::Swamp { saved: None } => {
            drain_accounts(t);
            drain_keeps_state(t);
        },
        _ => {},
    }
}

proof fn outputs_in_order<'a, TKey: AsKeyBytes + Clone, TVal: Clone>(
    t: Traversal<'a, TKey, TVal>,
    n: nat,
)
    requires
        meets_no_quota(t),
        n <= weighted_rest(t).len() + swamp_rest(t).len(),
    ensures
        outputs(t, n) == (weighted_rest(t) + swamp_rest(t)).take(n as int),
        meets_no_quota(walked(t, n)),
        weighted_rest(walked(t, n)).len() + swamp_rest(walked(t, n)).len() + n == weighted_rest(
            t,
        ).len() + swamp_rest(t).len(),
    decreases n,
{
    let all = weighted_rest(t) + swamp_rest(t);
    if n == 0 {
        assert(outputs(t, n) =~= all.take(0));
    } else {
        turn_in_order(t);
        match t.turn() {
            Turn::Yield(item, after) => {
                outputs_in_order(after, (n - 1) as nat);
                assert(all =~= seq![item] + (weighted_rest(after) + swamp_rest(after)));
                assert(outputs(t, n) =~= all.take(n as int));
            },
            Turn::End(_) => {},
        }
    }
}

/// A walk that meets no quota comes to all weighted nodes, bucket by bucket, then
/// to all nodes of the swamp, bucket by bucket, and then to its end.
pub proof fn unmet_quotas_give_all_weighted_first<'a, TKey: AsKeyBytes + Clone, TVal: Clone>(
    t: Traversal<'a, TKey, TVal>,
)
    requires
        is_fresh(t),
        quotas_unmet(t),
    ensures
        ({
            let weighted = lists_ahead(t.table, t.target, t.weighted_order, true);
            let swamp = lists_ahead(t.table, t.target, t.swamp_order, false);
            let n = weighted.len() + swamp.len();
            &&& outputs(t, n) == weighted + swamp
            &&& walked(t, n).turn() is End
        }),
{
    let weighted = lists_ahead(t.table, t.target, t.weighted_order, true);
    let swamp = lists_ahead(t.table, t.target, t.swamp_order, false);
    let n = weighted.len() + swamp.len();
    assert(weighted_rest(t) =~= weighted);
    assert(swamp_rest(t) =~= swamp);
    outputs_in_order(t, n);
    assert((weighted + swamp).take(n as int) =~= weighted + swamp);
    turn_in_order(walked(t, n));
}

/// How many weighted nodes come before those of the bucket at position `i` of the
/// visiting order.
pub open spec fn nodes_before<'a, TKey: AsKeyBytes + Clone, TVal: Clone>(
    t: Traversal<'a, TKey, TVal>,
    i: int,
) -> nat
    decreases i,
{
    if i <= 0 {
        0
    } else {
        nodes_before(t, i - 1) + t.weighted_list(t.weighted_order[i - 1]).len()
    }
}

/// How many of the first `n` weighted nodes belong to the bucket at position `i`
/// of the visiting order.
pub open spec fn given_by<'a, TKey: AsKeyBytes + Clone, TVal: Clone>(
    t: Traversal<'a, TKey, TVal>,
    i: int,
    n: nat,
) -> nat {
    let before = nodes_before(t, i);
    let len = t.weighted_list(t.weighted_order[i]).len();
    if n <= before {
        0
    } else if n - before <= len {
        (n - before) as nat
    } else {
        len
    }
}

/// How many nodes a weighted bucket gives before the first node of the swamp, at
/// most: its quota, but at least one.
pub open spec fn limit(start: BucketIndex, idx: BucketIndex) -> nat {
    if quota(start, idx) == 0 {
        1
    } else {
        quota(start, idx)
    }
}

/// What holds of a walk from `t` that came to `n` weighted nodes, and to no node of
/// the swamp, when `j` weighted buckets were entered.
spec fn before_swamp<'a, TKey: AsKeyBytes + Clone, TVal: Clone>(
    t: Traversal<'a, TKey, TVal>,
    now: Traversal<'a, TKey, TVal>,
    n: nat,
    j: int,
) -> bool {
    let order = t.weighted_order;
    &&& now.table == t.table
    &&& now.target == t.target
    &&& now.start == t.start
    &&& is_thorough(now)
    &&& swamp_rest(now) == swamp_rest(t)
    &&& 0 <= j <= order.len()
    &&& now.weighted_order == order.skip(j)
    &&& match now.state {
        State::Nowhere => j == 0 && n == 0,
        State::Weighted(progress) => {
            &&& 1 <= j
            &&& progress.need == quota(t.start, order[j - 1])
            &&& 1 <= progress.got <= limit(t.start, order[j - 1])
            &&& list_here(now.weighted).len() + progress.got == t.weighted_list(
                order[j - 1],
            ).len()
            &&& n == nodes_before(t, j - 1) + progress.got
            &&& forall|i: int|
                0 <= i < j - 1 ==> t.weighted_list(#[trigger] order[i]).len() <= limit(
                    t.start,
                    order[i],
                )
        },
        _ => false,
    }
}

/// What follows a walk that came to `n` weighted nodes: one weighted node more, or
/// a node of the swamp when no weighted node is left.
spec fn goes_on<'a, TKey: AsKeyBytes + Clone, TVal: Clone>(
    t: Traversal<'a, TKey, TVal>,
    now: Traversal<'a, TKey, TVal>,
    turn: Turn<'a, TKey, TVal>,
    n: nat,
) -> bool {
    match turn {
        Turn::Yield(_, after) => {
            ||| exists|j: int| #[trigger] before_swamp(t, after, n + 1, j)
            ||| weighted_rest(now).len() == 0 && swamp_rest(after).len() < swamp_rest(now).len()
        },
        Turn::End(_) => false,
    }
}

proof fn decide_before_swamp<'a, TKey: AsKeyBytes + Clone, TVal: Clone>(
    t: Traversal<'a, TKey, TVal>,
    now: Traversal<'a, TKey, TVal>,
    n: nat,
    j: int,
)
    requires
        swamp_rest(t).len() > 0,
        now.table == t.table,
        now.target == t.target,
        now.start == t.start,
        swamp_rest(now) == swamp_rest(t),
        now.weighted_head() is None,
        0 <= j <= t.weighted_order.len(),
        now.weighted_order == t.weighted_order.skip(j),
        n == nodes_before(t, j),
        forall|i: int|
            0 <= i < j ==> t.weighted_list(#[trigger] t.weighted_order[i]).len() <= limit(
                t.start,
                t.weighted_order[i],
            ),
    ensures
        goes_on(t, now, now.decide(), n),
    decreases now.weighted_order.len(),
{
    decide_accounts(now);
    if now.weighted_order.len() == 0 {
        drain_accounts(now);
    } else {
        let idx = now.weighted_order[0];
        assert(idx == t.weighted_order[j]);
        weighted_entered(now);
        let v = now.enter_weighted();
        assert(v.weighted_order =~= t.weighted_order.skip(j + 1));
        assert(v.weighted == Some(t.weighted_list(idx)));
        if v.weighted_head() is Some {
            weighted_taken(v);
            quota_fits(t.start, idx);
            let after = now.decide()->Yield_1;
            assert(before_swamp(t, after, n + 1, j + 1));
        } else {
            decide_before_swamp(t, v, n, j + 1);
        }
    }
}

proof fn turn_before_swamp<'a, TKey: AsKeyBytes + Clone, TVal: Clone>(
    t: Traversal<'a, TKey, TVal>,
    now: Traversal<'a, TKey, TVal>,
    n: nat,
    j: int,
)
    requires
        swamp_rest(t).len() > 0,
        before_swamp(t, now, n, j),
    ensures
        match now.state {
            State::Weighted(progress) => if progress.got < progress.need {
                goes_on(t, now, now.turn(), n)
            } else {
                &&& takes_swamp(now)
                &&& !takes_weighted(now)
                &&& progress.got == limit(t.start, t.weighted_order[j - 1])
            },
            _ => goes_on(t, now, now.turn(), n),
        },
{
    match now.state {
        State::Nowhere => {
            decide_before_swamp(t, now, n, j);
        },
        State::Weighted(progress) => {
            if progress.got >= progress.need {
                detour_takes_swamp(now, progress);
            } else if now.weighted_head() is Some {
                weighted_taken(now);
                let after = now.turn()->Yield_1;
                assert(before_swamp(t, after, n + 1, j));
            } else {
                assert(nodes_before(t, j) == nodes_before(t, j - 1) + t.weighted_list(
                    t.weighted_order[j - 1],
                ).len());
                decide_before_swamp(t, now, n, j);
            }
        },
        _ => {},
    }
}

/// As long as no node of the swamp came, the walk is on its way through the
/// weighted lists.
proof fn walk_before_swamp<'a, TKey: AsKeyBytes + Clone, TVal: Clone>(
    t: Traversal<'a, TKey, TVal>,
    now: Traversal<'a, TKey, TVal>,
    n: nat,
    m: nat,
    j: int,
) -> (k: int)
    requires
        swamp_rest(t).len() > 0,
        before_swamp(t, now, n, j),
        swamp_outputs(now, m).len() == 0,
    ensures
        before_swamp(t, walked(now, m), n + m, k),
    decreases m,
{
    if m == 0 {
        j
    } else {
        turn_before_swamp(t, now, n, j);
        let after = now.turn()->Yield_1;
        assert(!takes_swamp(now));
        let i = choose|i: int| #[trigger] before_swamp(t, after, n + 1, i);
        walk_before_swamp(t, after, n + 1, (m - 1) as nat, i)
    }
}

proof fn nodes_before_grow<'a, TKey: AsKeyBytes + Clone, TVal: Clone>(
    t: Traversal<'a, TKey, TVal>,
    i: int,
    j: int,
)
    requires
        0 <= i <= j,
    ensures
        nodes_before(t, i) <= nodes_before(t, j),
    decreases j - i,
{
    if i < j {
        nodes_before_grow(t, i, j - 1);
    }
}

/// Before the first node of the swamp comes, no weighted bucket gives more nodes
/// than its quota, but at least one. The node of the swamp comes only once the
/// bucket that was visited last has given that many, or all weighted nodes came.
pub proof fn quota_comes_before_swamp<'a, TKey: AsKeyBytes + Clone, TVal: Clone>(
    t: Traversal<'a, TKey, TVal>,
    n: nat,
)
    requires
        is_fresh(t),
        swamp_rest(t).len() > 0,
        swamp_outputs(t, n).len() == 0,
    ensures
        weighted_outputs(t, n).len() == n,
        forall|i: int|
            0 <= i < t.weighted_order.len() ==> given_by(t, i, n) <= limit(
                t.start,
                #[trigger] t.weighted_order[i],
            ),
        takes_swamp(walked(t, n)) ==> {
            ||| n == weighted_rest(t).len()
            ||| exists|i: int|
                {
                    &&& 0 <= i < t.weighted_order.len()
                    &&& nodes_before(t, i) < n <= nodes_before(t, i) + t.weighted_list(
                        #[trigger] t.weighted_order[i],
                    ).len()
                    &&& given_by(t, i, n) == limit(t.start, t.weighted_order[i])
                }
        },
{
    assert(t.weighted_order.skip(0) =~= t.weighted_order);
    let now = walked(t, n);
    let j = walk_before_swamp(t, t, 0, n, 0);
    walk_follows_lists(t, n);
    walk_makes_turns(t, t, 0, n, 0);
    match now.state {
        State::Weighted(progress) => {
            assert forall|i: int| 0 <= i < t.weighted_order.len() implies given_by(t, i, n)
                <= limit(t.start, #[trigger] t.weighted_order[i]) by {
                if i >= j {
                    nodes_before_grow(t, j, i);
                }
            }
            turn_before_swamp(t, now, n, j);
            if takes_swamp(now) {
                if progress.got >= progress.need {
                    assert(given_by(t, j - 1, n) == limit(t.start, t.weighted_order[j - 1]));
                } else {
                    node_has_one_origin(now);
                    let after = now.turn()->Yield_1;
                    if exists|i: int| #[trigger] before_swamp(t, after, n + 1, i) {
                        assert(swamp_rest(after) == swamp_rest(now));
                    }
                    assert(weighted_rest(now).len() == 0);
                }
            }
        },
        _ => {
            turn_before_swamp(t, now, n, j);
            if takes_swamp(now) {
                let after = now.turn()->Yield_1;
                if exists|i: int| #[trigger] before_swamp(t, after, n + 1, i) {
                    assert(swamp_rest(after) == swamp_rest(now));
                }
                assert(weighted_rest(now).len() == 0);
            }
        },
    }
}

proof fn walk_makes_turns<'a, TKey: AsKeyBytes + Clone, TVal: Clone>(
    t: Traversal<'a, TKey, TVal>,
    now: Traversal<'a, TKey, TVal>,
    n: nat,
    m: nat,
    j: int,
)
    requires
        swamp_rest(t).len() > 0,
        before_swamp(t, now, n, j),
        swamp_outputs(now, m).len() == 0,
    ensures
        weighted_outputs(now, m).len() == m,
    decreases m,
{
    if m > 0 {
        turn_before_swamp(t, now, n, j);
        node_has_one_origin(now);
        let after = now.turn()->Yield_1;
        assert(!takes_swamp(now));
        let i = choose|i: int| #[trigger] before_swamp(t, after, n + 1, i);
        walk_makes_turns(t, after, n + 1, (m - 1) as nat, i);
    }
}

} // verus!
