//! The hash map that holds the queries of a pool.

use vstd::prelude::*;

use fnv::FnvHashMap;

verus! {

/// The hasher of the map.
#[verifier::external_type_specification]
#[verifier::external_body]
pub struct ExFnvHasher(fnv::FnvHasher);

/// What makes a hasher for each key.
#[verifier::external_type_specification]
#[verifier::external_body]
#[verifier::reject_recursive_types(H)]
pub struct ExBuildHasherDefault<H>(std::hash::BuildHasherDefault<H>);

/// Whether the sequence holds each key of the map once, and nothing else.
pub open spec fn is_order_of<V>(order: Seq<usize>, m: Map<usize, V>) -> bool {
    &&& order.no_duplicates()
    &&& forall|k: usize| #[trigger] order.contains(k) <==> m.contains_key(k)
}

/// The number of entries, by `FnvHashMap::len`.
#[verifier::external_body]
pub(crate) fn map_len<V>(m: &FnvHashMap<usize, V>) -> (n: usize)
    ensures
        n == m@.len(),
{
    m.len()
}

/// Enters a value under a key, by `FnvHashMap::insert`; it takes the place of
/// any other value under that key.
#[verifier::external_body]
pub(crate) fn map_insert<V>(m: &mut FnvHashMap<usize, V>, k: usize, v: V)
    ensures
        final(m)@ == old(m)@.insert(k, v),
{
    m.insert(k, v);
}

/// Takes the value under a key out of the map, by `FnvHashMap::remove`.
#[verifier::external_body]
pub(crate) fn map_remove<V>(m: &mut FnvHashMap<usize, V>, k: usize) -> (r: Option<V>)
    ensures
        final(m)@ == old(m)@.remove(k),
        r == (if old(m)@.contains_key(k) {
            Some(old(m)@[k])
        } else {
            None
        }),
{
    m.remove(&k)
}

/// Looks up the value under a key, by `FnvHashMap::get`.
#[verifier::external_body]
pub(crate) fn map_get<V>(m: &FnvHashMap<usize, V>, k: usize) -> (r: Option<&V>)
    ensures
        r == (if m@.contains_key(k) {
            Some(&m@[k])
        } else {
            None
        }),
{
    m.get(&k)
}

/// Looks up the value under a key for changing it, by `FnvHashMap::get_mut`.
/// What it is changed to is what the map then holds under the key.
#[verifier::external_body]
pub(crate) fn map_get_mut<V>(m: &mut FnvHashMap<usize, V>, k: usize) -> (r: Option<&mut V>)
    ensures
        match r {
            Some(v) => {
                &&& old(m)@.contains_key(k)
                &&& *v == old(m)@[k]
                &&& final(m)@ == old(m)@.insert(k, *final(v))
            },
            None => !old(m)@.contains_key(k) && final(m)@ == old(m)@,
        },
{
    m.get_mut(&k)
}

/// The keys of the map, by `FnvHashMap::keys`: each of them once. In which
/// order they come is left open.
#[verifier::external_body]
pub(crate) fn map_keys<V>(m: &FnvHashMap<usize, V>) -> (r: Vec<usize>)
    ensures
        is_order_of(r@, m@),
{
    m.keys().copied().collect()
}

/// The values of the map for changing them, by `FnvHashMap::values_mut`: one
/// for each key. In which order they come is left open. What each is changed to
/// is what the map then holds under its key.
#[verifier::external_body]
pub(crate) fn map_values_mut<V>(m: &mut FnvHashMap<usize, V>) -> (r: Vec<&mut V>)
    ensures
        exists|order: Seq<usize>|
            {
                &&& #[trigger] is_order_of(order, old(m)@)
                &&& r@.len() == order.len()
                &&& final(m)@.dom() == old(m)@.dom()
                &&& forall|i: int|
                    #![trigger order[i]]
                    0 <= i < order.len() ==> *r@[i] == old(m)@[order[i]] && final(m)@[order[i]]
                        == *final(r@[i])
            },
{
    m.values_mut().collect()
}

} // verus!
