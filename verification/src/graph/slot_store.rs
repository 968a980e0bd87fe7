//! The slot maps holding the nodes and edges of the graph.
//!
//! Keys of a slot map are handled as their raw 64-bit form
//! (`KeyData::as_ffi`), and a slot map's contents as a map from raw keys to
//! values.
use vstd::prelude::*;
use slotmap::{DefaultKey, KeyData, Key, SlotMap};
use super::ir::{Node, Edge, key_norm, is_key};

verus! {

/// Slot map holding the graph's nodes.
#[verifier::external_body]
pub struct NodeSlots {
    slots: SlotMap<DefaultKey, Node<usize>>,
}

/// Slot map holding the graph's edges.
#[verifier::external_body]
pub struct EdgeSlots {
    slots: SlotMap<DefaultKey, Edge>,
}

/// The nodes a node slot map holds, by raw key.
pub uninterp spec fn node_slots(m: NodeSlots) -> Map<u64, Node<usize>>;

/// The edges an edge slot map holds, by raw key.
pub uninterp spec fn edge_slots(m: EdgeSlots) -> Map<u64, Edge>;

/// The slot that a raw key designates: its low 32 bits.
pub open spec fn slot_index(k: u64) -> u64 {
    k % 0x1_0000_0000
}

/// Well-formed contents: finitely many entries, all under canonical keys.
pub open spec fn keys_canonical<V>(m: Map<u64, V>) -> bool {
    &&& m.dom().finite()
    &&& forall|k: u64| #[trigger] m.dom().contains(k) ==> is_key(k)
}

/// `SlotMap::new`: an empty slot map.
#[verifier::external_body]
pub(crate) fn node_slots_new() -> (r: NodeSlots)
    ensures
        node_slots(r).dom() == Set::<u64>::empty(),
{
    NodeSlots { slots: SlotMap::new() }
}

/// `SlotMap::insert_with_key`: stores `f(k)` under a key `k` that was not in
/// use, and returns `k`. The key is canonical, and `f` is called with it. A map with fewer than
/// `u32::MAX - 1` entries never panics here (this library never detaches
/// slots, which would otherwise also count against the limit).
#[verifier::external_body]
pub(crate) fn node_slots_insert_with_key<F: FnOnce(u64) -> Node<usize>>(
    m: &mut NodeSlots,
    f: F,
) -> (k: u64)
    requires
        keys_canonical(node_slots(*old(m))),
        node_slots(*old(m)).dom().len() + 1 < u32::MAX,
        forall|k: u64| is_key(k) ==> call_requires(f, (k,)),
    ensures
        is_key(k),
        !node_slots(*old(m)).dom().contains(k),
        node_slots(*final(m)) == node_slots(*old(m)).insert(k, node_slots(*final(m))[k]),
        call_ensures(f, (k,), node_slots(*final(m))[k]),
{
    m.slots.insert_with_key(|key| f(key.data().as_ffi())).data().as_ffi()
}

/// `SlotMap::remove`: removes and returns the entry under the canonical form
/// of `k`, if there is one.
#[verifier::external_body]
pub(crate) fn node_slots_remove(m: &mut NodeSlots, k: u64) -> (r: Option<Node<usize>>)
    ensures
        node_slots(*old(m)).dom().contains(key_norm(k)) ==> r == Some(node_slots(*old(m))[key_norm(k)]),
        !node_slots(*old(m)).dom().contains(key_norm(k)) ==> r is None,
        node_slots(*final(m)) == node_slots(*old(m)).remove(key_norm(k)),
{
    m.slots.remove(KeyData::from_ffi(k).into())
}

/// `SlotMap::get`: the entry under the canonical form of `k`, if there is
/// one.
#[verifier::external_body]
pub(crate) fn node_slots_get(m: &NodeSlots, k: u64) -> (r: Option<&Node<usize>>)
    ensures
        node_slots(*m).dom().contains(key_norm(k)) ==> r == Some(&node_slots(*m)[key_norm(k)]),
        !node_slots(*m).dom().contains(key_norm(k)) ==> r is None,
{
    m.slots.get(KeyData::from_ffi(k).into())
}

/// `SlotMap::index_mut`, assigned to: replaces the entry under the canonical
/// form of `k`, which must be present.
#[verifier::external_body]
pub(crate) fn node_slots_replace(m: &mut NodeSlots, k: u64, v: Node<usize>)
    requires
        node_slots(*old(m)).dom().contains(key_norm(k)),
    ensures
        node_slots(*final(m)) == node_slots(*old(m)).insert(key_norm(k), v),
{
    m.slots[KeyData::from_ffi(k).into()] = v;
}

/// `SlotMap::keys`: every key in use, once each.
#[verifier::external_body]
pub(crate) fn node_slots_keys(m: &NodeSlots) -> (r: Vec<u64>)
    ensures
        r@.no_duplicates(),
        forall|i: int| 0 <= i < r@.len() ==> node_slots(*m).dom().contains(#[trigger] r@[i]),
        forall|k: u64| #[trigger] node_slots(*m).dom().contains(k) ==> r@.contains(k),
{
    m.slots.keys().map(|key| key.data().as_ffi()).collect()
}

/// `SlotMap::new`: an empty slot map.
#[verifier::external_body]
pub(crate) fn edge_slots_new() -> (r: EdgeSlots)
    ensures
        edge_slots(r).dom() == Set::<u64>::empty(),
{
    EdgeSlots { slots: SlotMap::new() }
}

/// `SlotMap::insert_with_key`: stores `f(k)` under a key `k` that was not in
/// use, and returns `k`. The key is canonical, and `f` is called with it. A map with fewer than
/// `u32::MAX - 1` entries never panics here (this library never detaches
/// slots, which would otherwise also count against the limit).
#[verifier::external_body]
pub(crate) fn edge_slots_insert_with_key<F: FnOnce(u64) -> Edge>(
    m: &mut EdgeSlots,
    f: F,
) -> (k: u64)
    requires
        keys_canonical(edge_slots(*old(m))),
        edge_slots(*old(m)).dom().len() + 1 < u32::MAX,
        forall|k: u64| is_key(k) ==> call_requires(f, (k,)),
    ensures
        is_key(k),
        !edge_slots(*old(m)).dom().contains(k),
        edge_slots(*final(m)) == edge_slots(*old(m)).insert(k, edge_slots(*final(m))[k]),
        call_ensures(f, (k,), edge_slots(*final(m))[k]),
{
    m.slots.insert_with_key(|key| f(key.data().as_ffi())).data().as_ffi()
}

/// `SlotMap::remove`: removes and returns the entry under the canonical form
/// of `k`, if there is one.
#[verifier::external_body]
pub(crate) fn edge_slots_remove(m: &mut EdgeSlots, k: u64) -> (r: Option<Edge>)
    ensures
        edge_slots(*old(m)).dom().contains(key_norm(k)) ==> r == Some(edge_slots(*old(m))[key_norm(k)]),
        !edge_slots(*old(m)).dom().contains(key_norm(k)) ==> r is None,
        edge_slots(*final(m)) == edge_slots(*old(m)).remove(key_norm(k)),
{
    m.slots.remove(KeyData::from_ffi(k).into())
}

/// `SlotMap::iter`: every key in use with its entry (copied), once each, in
/// increasing slot order.
#[verifier::external_body]
pub(crate) fn edge_slots_iter(m: &EdgeSlots) -> (r: Vec<(u64, Edge)>)
    ensures
        forall|i: int, j: int| 0 <= i < j < r@.len() ==> slot_index((#[trigger] r@[i]).0) < slot_index((#[trigger] r@[j]).0),
        forall|i: int, j: int| 0 <= i < j < r@.len() ==> (#[trigger] r@[i]).0 != (#[trigger] r@[j]).0,
        forall|i: int|
            0 <= i < r@.len() ==> edge_slots(*m).dom().contains((#[trigger] r@[i]).0) && edge_slots(*m)[r@[i].0]
                == r@[i].1,
        forall|k: u64| #[trigger] edge_slots(*m).dom().contains(k) ==> exists|i: int| 0 <= i < r@.len() && (#[trigger] r@[i]).0 == k,
{
    m.slots.iter().map(|(key, e)| (key.data().as_ffi(), *e)).collect()
}

} // verus!
