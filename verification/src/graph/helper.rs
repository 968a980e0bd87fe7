//! Construction and editing of audio graphs.
//!
//! The graph is a set of nodes, each with input and output ports, and a set
//! of edges, each connecting an output port of one node to an input port of
//! another node of the same port kind. Edits keep every edge attached to
//! existing ports, never duplicate a connection, and, when asked to, refuse
//! edges that would close a cycle.
use vstd::prelude::*;
use core::marker::PhantomData;
use crate::enums::Enum;
use super::ir::{
    Node, Edge, Port, NodeID, EdgeID, PortID, key_norm, is_key, AddEdgeError, AddPortError,
    RemovePortError, float_bits_eq, float_bits_equal,
};
use super::slot_store::{
    NodeSlots, EdgeSlots, node_slots, edge_slots, keys_canonical, node_slots_new,
    node_slots_insert_with_key, node_slots_remove, node_slots_get, node_slots_replace,
    node_slots_keys, edge_slots_new, edge_slots_insert_with_key, edge_slots_remove,
    edge_slots_iter, slot_index,
};

verus! {

broadcast use {super::ir::lemma_node_id_eq, super::ir::lemma_edge_id_eq};

/// Whether a port list holds a port with identifier `id`.
pub open spec fn has_port(ports: Seq<Port<usize>>, id: PortID) -> bool {
    exists|i: int| 0 <= i < ports.len() && (#[trigger] ports[i]).id == id
}

/// Port identifiers are unique across a node's inputs and outputs.
pub open spec fn ports_unique(n: Node<usize>) -> bool {
    &&& forall|i: int, j: int|
        0 <= i < j < n.inputs@.len() ==> (#[trigger] n.inputs@[i]).id != (#[trigger] n.inputs@[j]).id
    &&& forall|i: int, j: int|
        0 <= i < j < n.outputs@.len() ==> (#[trigger] n.outputs@[i]).id != (#[trigger] n.outputs@[j]).id
    &&& forall|i: int, j: int|
        0 <= i < n.inputs@.len() && 0 <= j < n.outputs@.len() ==> (#[trigger] n.inputs@[i]).id
            != (#[trigger] n.outputs@[j]).id
}

/// Every port kind index of a node is below `count`.
pub open spec fn port_types_below(n: Node<usize>, count: nat) -> bool {
    &&& forall|i: int| 0 <= i < n.inputs@.len() ==> (#[trigger] n.inputs@[i]).port_type < count
    &&& forall|i: int| 0 <= i < n.outputs@.len() ==> (#[trigger] n.outputs@[i]).port_type < count
}

/// Two edges connect the same ports.
pub open spec fn same_endpoints(a: Edge, b: Edge) -> bool {
    &&& a.src_node == b.src_node
    &&& a.src_port == b.src_port
    &&& a.dst_node == b.dst_node
    &&& a.dst_port == b.dst_port
}

/// An edge runs from an output port of an existing node to an input port of
/// an existing node.
pub open spec fn edge_attached(nodes: Map<u64, Node<usize>>, e: Edge) -> bool {
    &&& nodes.dom().contains(e.src_node.spec_key())
    &&& has_port(nodes[e.src_node.spec_key()].outputs@, e.src_port)
    &&& nodes.dom().contains(e.dst_node.spec_key())
    &&& has_port(nodes[e.dst_node.spec_key()].inputs@, e.dst_port)
}

/// An edge uses port `port` of node `node`, at either end.
pub open spec fn touches_port(e: Edge, node: u64, port: PortID) -> bool {
    ||| (e.src_node.spec_key() == node && e.src_port == port)
    ||| (e.dst_node.spec_key() == node && e.dst_port == port)
}

/// An edge starts or ends at node `node`.
pub open spec fn touches_node(e: Edge, node: u64) -> bool {
    e.src_node.spec_key() == node || e.dst_node.spec_key() == node
}

/// Node `v` receives an edge from some node of `s`.
pub open spec fn has_incoming_from(edges: Map<u64, Edge>, v: u64, s: Set<u64>) -> bool {
    exists|k: u64|
        #[trigger] edges.dom().contains(k) && edges[k].dst_node.spec_key() == v && s.contains(
            edges[k].src_node.spec_key(),
        )
}

/// Every node of `s` receives an edge from a node of `s`.
pub open spec fn closed_under_predecessors(edges: Map<u64, Edge>, s: Set<u64>) -> bool {
    forall|v: u64| #[trigger] s.contains(v) ==> has_incoming_from(edges, v, s)
}

/// The graph has a cycle: some non-empty set of its nodes has every member
/// fed by an edge from another member (so following edges backwards within
/// the set never ends).
pub open spec fn has_cycle(nodes: Set<u64>, edges: Map<u64, Edge>) -> bool {
    exists|s: Set<u64>|
        #![trigger closed_under_predecessors(edges, s)]
        s.subset_of(nodes) && (exists|v: u64| s.contains(v)) && closed_under_predecessors(edges, s)
}

/// A closed walk `path[0] -> path[1] -> ... -> path.last() -> path[0]` along
/// edges of the graph is a cycle.
pub proof fn lemma_closed_walk_is_cycle(nodes: Set<u64>, edges: Map<u64, Edge>, path: Seq<u64>)
    requires
        path.len() > 0,
        forall|i: int| 0 <= i < path.len() ==> nodes.contains(#[trigger] path[i]),
        forall|i: int|
            #![trigger path[i]]
            0 <= i < path.len() ==> exists|k: u64|
                #[trigger] edges.dom().contains(k) && edges[k].src_node.spec_key() == path[i]
                    && edges[k].dst_node.spec_key() == path[(i + 1) % (path.len() as int)],
    ensures
        has_cycle(nodes, edges),
{
    let s = path.to_set();
    assert(s.contains(path[0]));
    assert forall|v: u64| #[trigger] s.contains(v) implies has_incoming_from(edges, v, s) by {
        let i = choose|i: int| 0 <= i < path.len() && path[i] == v;
        let j = if i == 0 { path.len() - 1 } else { i - 1 };
        assert((j + 1) % (path.len() as int) == i) by {
            if i == 0 {
                assert((path.len() - 1 + 1) % (path.len() as int) == 0) by (nonlinear_arith)
                    requires path.len() > 0;
            } else {
                assert((i - 1 + 1) % (path.len() as int) == i) by (nonlinear_arith)
                    requires 0 < i < path.len();
            }
        }
        let k = choose|k: u64|
            #[trigger] edges.dom().contains(k) && edges[k].src_node.spec_key() == path[j]
                && edges[k].dst_node.spec_key() == path[(j + 1) % (path.len() as int)];
        assert(s.contains(path[j]));
    }
    assert(s.subset_of(nodes));
    assert(closed_under_predecessors(edges, s));
}

/// Well-formed graph contents: canonical keys, identifiers matching keys,
/// unique port identifiers per node, port kinds below `count`, every edge
/// attached to existing ports, and no two edges between the same ports.
pub open spec fn graph_wf(nodes: Map<u64, Node<usize>>, edges: Map<u64, Edge>, count: nat) -> bool {
    &&& keys_canonical(nodes)
    &&& keys_canonical(edges)
    &&& forall|k: u64| #[trigger] nodes.dom().contains(k) ==> nodes[k].id.spec_key() == k
    &&& forall|k: u64| #[trigger] nodes.dom().contains(k) ==> ports_unique(nodes[k])
    &&& forall|k: u64| #[trigger] nodes.dom().contains(k) ==> port_types_below(nodes[k], count)
    &&& forall|k: u64| #[trigger] edges.dom().contains(k) ==> edges[k].id.spec_key() == k
    &&& forall|k: u64| #[trigger] edges.dom().contains(k) ==> edge_attached(nodes, edges[k])
    &&& forall|k1: u64, k2: u64|
        #[trigger] edges.dom().contains(k1) && #[trigger] edges.dom().contains(k2) && k1 != k2
            ==> !same_endpoints(edges[k1], edges[k2])
}

/// Adding an edge attached to existing ports, under a fresh canonical key
/// matching its identifier, between ports no stored edge connects, keeps
/// the graph well-formed.
proof fn lemma_insert_edge_wf(nodes: Map<u64, Node<usize>>, edges: Map<u64, Edge>, count: nat, k: u64, e: Edge)
    requires
        graph_wf(nodes, edges, count),
        is_key(k),
        !edges.dom().contains(k),
        e.id.spec_key() == k,
        edge_attached(nodes, e),
        !endpoints_taken(edges, e.src_node, e.src_port, e.dst_node, e.dst_port),
    ensures
        graph_wf(nodes, edges.insert(k, e), count),
{
    let ne = edges.insert(k, e);
    assert forall|k1: u64, k2: u64|
        #[trigger] ne.dom().contains(k1) && #[trigger] ne.dom().contains(k2) && k1 != k2 implies !same_endpoints(
        ne[k1],
        ne[k2],
    ) by {
        if k1 == k {
            if same_endpoints(ne[k1], ne[k2]) {
                assert(has_endpoints(edges[k2], e.src_node, e.src_port, e.dst_node, e.dst_port));
            }
        } else if k2 == k {
            if same_endpoints(ne[k1], ne[k2]) {
                assert(has_endpoints(edges[k1], e.src_node, e.src_port, e.dst_node, e.dst_port));
            }
        }
    }
}

/// Helper to construct and edit audio graphs.
///
/// Port kinds are stored by their index in `PortType`.
pub struct AudioGraphHelper<PortType> {
    nodes: NodeSlots,
    edges: EdgeSlots,
    needs_compile: bool,
    __port_type: PhantomData<PortType>,
}

impl<PortType> AudioGraphHelper<PortType> {
    /// The nodes, by raw key.
    pub closed spec fn spec_nodes(&self) -> Map<u64, Node<usize>> {
        node_slots(self.nodes)
    }

    /// The edges, by raw key.
    pub closed spec fn spec_edges(&self) -> Map<u64, Edge> {
        edge_slots(self.edges)
    }

    /// Whether the graph changed since it was last compiled.
    pub closed spec fn spec_needs_compile(&self) -> bool {
        self.needs_compile
    }
}

impl<PortType: Enum> AudioGraphHelper<PortType> {
    /// Well-formedness of the graph.
    pub open spec fn wf(&self) -> bool {
        &&& PortType::spec_fits()
        &&& graph_wf(self.spec_nodes(), self.spec_edges(), PortType::spec_count())
    }

    /// Constructs an empty graph.
    pub fn new() -> (g: Self)
        requires
            PortType::spec_fits(),
        ensures
            g.wf(),
            g.spec_nodes().dom() == Set::<u64>::empty(),
            g.spec_edges().dom() == Set::<u64>::empty(),
            !g.spec_needs_compile(),
    {
        let g = AudioGraphHelper {
            nodes: node_slots_new(),
            edges: edge_slots_new(),
            needs_compile: false,
            __port_type: PhantomData,
        };
        proof {
            assert(g.spec_nodes() =~= Map::empty());
            assert(g.spec_edges() =~= Map::empty());
        }
        g
    }

    /// Whether the graph changed since it was last compiled.
    pub fn needs_compile(&self) -> (b: bool)
        ensures
            b == self.spec_needs_compile(),
    {
        self.needs_compile
    }

    /// Adds a node with no ports and returns its identifier, which was not
    /// in use.
    pub fn add_node(&mut self, latency: u64) -> (id: NodeID)
        requires
            old(self).wf(),
            old(self).spec_nodes().dom().len() + 1 < u32::MAX,
        ensures
            final(self).wf(),
            !old(self).spec_nodes().dom().contains(id.spec_key()),
            final(self).spec_nodes() == old(self).spec_nodes().insert(
                id.spec_key(),
                final(self).spec_nodes()[id.spec_key()],
            ),
            final(self).spec_nodes()[id.spec_key()].id == id,
            final(self).spec_nodes()[id.spec_key()].inputs@.len() == 0,
            final(self).spec_nodes()[id.spec_key()].outputs@.len() == 0,
            final(self).spec_nodes()[id.spec_key()].latency == latency,
            final(self).spec_edges() == old(self).spec_edges(),
            final(self).spec_needs_compile(),
    {
        let make = |k: u64| -> (n: Node<usize>)
            requires
                is_key(k),
            ensures
                n.id.spec_key() == k,
                n.inputs@.len() == 0,
                n.outputs@.len() == 0,
                n.latency == latency,
        {
            Node { id: NodeID::from_key(k), inputs: Vec::new(), outputs: Vec::new(), latency }
        };
        let k = node_slots_insert_with_key(&mut self.nodes, make);
        self.needs_compile = true;
        let id = NodeID::from_key(k);
        proof {
            let nodes = self.spec_nodes();
            let old_nodes = old(self).spec_nodes();
            assert(nodes[k].id.spec_key() == k);
            assert(nodes[k].id == id);
            assert forall|k2: u64| #[trigger] nodes.dom().contains(k2) implies nodes[k2].id.spec_key() == k2 by {
                if k2 != k {
                    assert(old_nodes.dom().contains(k2));
                }
            }
            assert forall|k2: u64| #[trigger] self.spec_edges().dom().contains(k2) implies edge_attached(
                nodes,
                self.spec_edges()[k2],
            ) by {
                let e = self.spec_edges()[k2];
                assert(edge_attached(old_nodes, e));
                assert(e.src_node.spec_key() != k);
                assert(e.dst_node.spec_key() != k);
            }
        }
        id
    }
}

/// The nodes of `keys` not yet marked in `removed`.
pub open spec fn remaining_set(keys: Seq<u64>, removed: Seq<bool>) -> Set<u64> {
    Set::new(|k: u64| exists|j: int| 0 <= j < keys.len() && keys[j] == k && !removed[j])
}

/// Number of unmarked entries.
pub open spec fn count_unmarked(s: Seq<bool>) -> nat
    decreases s.len(),
{
    if s.len() == 0 {
        0
    } else {
        count_unmarked(s.drop_last()) + (if s.last() { 0nat } else { 1nat })
    }
}

proof fn lemma_count_unmarked_update(s: Seq<bool>, i: int)
    requires
        0 <= i < s.len(),
        !s[i],
    ensures
        count_unmarked(s.update(i, true)) + 1 == count_unmarked(s),
    decreases s.len(),
{
    let t = s.update(i, true);
    if i == s.len() - 1 {
        assert(t.drop_last() =~= s.drop_last());
    } else {
        lemma_count_unmarked_update(s.drop_last(), i);
        assert(t.drop_last() =~= s.drop_last().update(i, true));
    }
}

/// Node `v` receives an edge listed in `edges` from a node of `s`.
pub open spec fn listed_incoming(edges: Seq<(u64, Edge)>, v: u64, s: Set<u64>) -> bool {
    exists|i: int|
        0 <= i < edges.len() && (#[trigger] edges[i]).1.dst_node.spec_key() == v && s.contains(
            edges[i].1.src_node.spec_key(),
        )
}

/// Whether `k` is a node of `keys` not marked in `removed`.
fn is_remaining(keys: &Vec<u64>, removed: &Vec<bool>, k: u64) -> (r: bool)
    requires
        keys@.len() == removed@.len(),
    ensures
        r == remaining_set(keys@, removed@).contains(k),
{
    let mut j: usize = 0;
    while j < keys.len()
        invariant
            j <= keys@.len(),
            keys@.len() == removed@.len(),
            forall|i: int| 0 <= i < j ==> !(keys@[i] == k && !removed@[i]),
        decreases keys@.len() - j,
    {
        if keys[j] == k && !removed[j] {
            return true;
        }
        j = j + 1;
    }
    false
}

/// Whether node `v` receives a listed edge from a node still remaining.
fn incoming_from_remaining(edges: &Vec<(u64, Edge)>, keys: &Vec<u64>, removed: &Vec<bool>, v: u64) -> (r: bool)
    requires
        keys@.len() == removed@.len(),
    ensures
        r == listed_incoming(edges@, v, remaining_set(keys@, removed@)),
{
    let ghost rem = remaining_set(keys@, removed@);
    let mut i: usize = 0;
    while i < edges.len()
        invariant
            i <= edges@.len(),
            keys@.len() == removed@.len(),
            rem == remaining_set(keys@, removed@),
            forall|j: int|
                0 <= j < i ==> !((#[trigger] edges@[j]).1.dst_node.spec_key() == v && rem.contains(
                    edges@[j].1.src_node.spec_key(),
                )),
        decreases edges@.len() - i,
    {
        let e = edges[i].1;
        if e.dst_node.key() == v && is_remaining(keys, removed, e.src_node.key()) {
            return true;
        }
        i = i + 1;
    }
    false
}

/// A remaining node that receives no edge from a remaining node, if any.
fn find_removable(edges: &Vec<(u64, Edge)>, keys: &Vec<u64>, removed: &Vec<bool>) -> (r: Option<usize>)
    requires
        keys@.len() == removed@.len(),
    ensures
        r matches Some(i) ==> i < keys@.len() && !removed@[i as int] && !listed_incoming(
            edges@,
            keys@[i as int],
            remaining_set(keys@, removed@),
        ),
        r is None ==> forall|i: int|
            0 <= i < keys@.len() && !removed@[i] ==> listed_incoming(
                edges@,
                #[trigger] keys@[i],
                remaining_set(keys@, removed@),
            ),
{
    let mut i: usize = 0;
    while i < keys.len()
        invariant
            i <= keys@.len(),
            keys@.len() == removed@.len(),
            forall|j: int|
                0 <= j < i && !removed@[j] ==> listed_incoming(
                    edges@,
                    #[trigger] keys@[j],
                    remaining_set(keys@, removed@),
                ),
        decreases keys@.len() - i,
    {
        if !removed[i] && !incoming_from_remaining(edges, keys, removed, keys[i]) {
            return Some(i);
        }
        i = i + 1;
    }
    None
}

/// Listed edges and an edge map that list the same entries agree on which
/// nodes feed which.
proof fn lemma_listed_incoming_matches(edges: Seq<(u64, Edge)>, emap: Map<u64, Edge>)
    requires
        forall|i: int|
            0 <= i < edges.len() ==> emap.dom().contains((#[trigger] edges[i]).0) && emap[edges[i].0] == edges[i].1,
        forall|k: u64| #[trigger] emap.dom().contains(k) ==> exists|i: int| 0 <= i < edges.len() && (#[trigger] edges[i]).0 == k,
    ensures
        forall|v: u64, s: Set<u64>| #[trigger] listed_incoming(edges, v, s) == has_incoming_from(emap, v, s),
{
    assert forall|v: u64, s: Set<u64>| #[trigger] listed_incoming(edges, v, s) == has_incoming_from(emap, v, s) by {
        if listed_incoming(edges, v, s) {
            let i = choose|i: int|
                0 <= i < edges.len() && (#[trigger] edges[i]).1.dst_node.spec_key() == v && s.contains(
                    edges[i].1.src_node.spec_key(),
                );
            let k = edges[i].0;
            assert(emap.dom().contains(k));
        }
        if has_incoming_from(emap, v, s) {
            let k = choose|k: u64|
                #[trigger] emap.dom().contains(k) && emap[k].dst_node.spec_key() == v && s.contains(
                    emap[k].src_node.spec_key(),
                );
            let i = choose|i: int| 0 <= i < edges.len() && (#[trigger] edges[i]).0 == k;
            assert(edges[i].1 == emap[k]);
        }
    }
}

/// Every closed set inside the remaining nodes stays inside them when a
/// remaining node that no remaining node feeds is removed.
proof fn lemma_remove_unfed(
    nodes: Set<u64>,
    emap: Map<u64, Edge>,
    keys: Seq<u64>,
    before: Seq<bool>,
    i: int,
)
    requires
        keys.len() == before.len(),
        0 <= i < keys.len(),
        !before[i],
        !has_incoming_from(emap, keys[i], remaining_set(keys, before)),
        forall|s: Set<u64>|
            #![trigger closed_under_predecessors(emap, s)]
            s.subset_of(nodes) && closed_under_predecessors(emap, s) ==> s.subset_of(remaining_set(keys, before)),
    ensures
        forall|s: Set<u64>|
            #![trigger closed_under_predecessors(emap, s)]
            s.subset_of(nodes) && closed_under_predecessors(emap, s) ==> s.subset_of(
                remaining_set(keys, before.update(i, true)),
            ),
        remaining_set(keys, before.update(i, true)).subset_of(remaining_set(keys, before)),
{
    let rem = remaining_set(keys, before);
    let after = before.update(i, true);
    let v = keys[i];
    assert forall|s: Set<u64>|
        #![trigger closed_under_predecessors(emap, s)]
        s.subset_of(nodes) && closed_under_predecessors(emap, s) implies s.subset_of(remaining_set(keys, after)) by {
        assert(s.subset_of(rem));
        if s.contains(v) {
            assert(has_incoming_from(emap, v, s));
            let k = choose|k: u64|
                #[trigger] emap.dom().contains(k) && emap[k].dst_node.spec_key() == v && s.contains(
                    emap[k].src_node.spec_key(),
                );
            assert(rem.contains(emap[k].src_node.spec_key()));
            assert(has_incoming_from(emap, v, rem));
        }
        assert forall|k: u64| s.contains(k) implies remaining_set(keys, after).contains(k) by {
            assert(rem.contains(k));
            let jj = choose|jj: int| 0 <= jj < keys.len() && keys[jj] == k && !before[jj];
            assert(jj != i);
            assert(!after[jj]);
        }
    }
    assert forall|k: u64| remaining_set(keys, after).contains(k) implies rem.contains(k) by {
        let jj = choose|jj: int| 0 <= jj < keys.len() && keys[jj] == k && !after[jj];
        assert(!before[jj]);
    }
}

/// When every remaining node is fed by a remaining node, the graph has a
/// cycle exactly when some node remains.
proof fn lemma_stuck_decides(nodes: Set<u64>, emap: Map<u64, Edge>, rem: Set<u64>)
    requires
        rem.subset_of(nodes),
        closed_under_predecessors(emap, rem),
        forall|s: Set<u64>|
            #![trigger closed_under_predecessors(emap, s)]
            s.subset_of(nodes) && closed_under_predecessors(emap, s) ==> s.subset_of(rem),
    ensures
        has_cycle(nodes, emap) == (exists|v: u64| rem.contains(v)),
{
    if exists|v: u64| rem.contains(v) {
        assert(has_cycle(nodes, emap));
    }
    if has_cycle(nodes, emap) {
        let s = choose|s: Set<u64>|
            #![trigger closed_under_predecessors(emap, s)]
            s.subset_of(nodes) && (exists|v: u64| s.contains(v)) && closed_under_predecessors(emap, s);
        let v = choose|v: u64| s.contains(v);
        assert(rem.contains(v));
    }
}

impl<PortType: Enum> AudioGraphHelper<PortType> {
    /// Whether the graph has a cycle.
    pub fn cycle_detected(&self) -> (r: bool)
        requires
            self.wf(),
        ensures
            r == has_cycle(self.spec_nodes().dom(), self.spec_edges()),
    {
        let ghost nodes = self.spec_nodes().dom();
        let ghost emap = self.spec_edges();
        let keys = node_slots_keys(&self.nodes);
        let edges = edge_slots_iter(&self.edges);
        let n = keys.len();
        let mut removed: Vec<bool> = Vec::with_capacity(n);
        let mut j: usize = 0;
        while j < n
            invariant
                j <= n,
                n == keys@.len(),
                removed@.len() == j,
                forall|i: int| 0 <= i < j ==> !(#[trigger] removed@[i]),
            decreases n - j,
        {
            removed.push(false);
            j = j + 1;
        }
        proof {
            lemma_listed_incoming_matches(edges@, emap);
            assert(remaining_set(keys@, removed@) =~= nodes) by {
                assert forall|k: u64| nodes.contains(k) implies remaining_set(keys@, removed@).contains(k) by {
                    let i = choose|i: int| 0 <= i < keys@.len() && keys@[i] == k;
                }
            }
        }
        loop
            invariant
                n == keys@.len(),
                removed@.len() == n,
                forall|v: u64, s: Set<u64>|
                    #[trigger] listed_incoming(edges@, v, s) == has_incoming_from(emap, v, s),
                remaining_set(keys@, removed@).subset_of(nodes),
                forall|s: Set<u64>|
                    #![trigger closed_under_predecessors(emap, s)]
                    s.subset_of(nodes) && closed_under_predecessors(emap, s) ==> s.subset_of(
                        remaining_set(keys@, removed@),
                    ),
            ensures
                forall|i: int|
                    0 <= i < keys@.len() && !removed@[i] ==> listed_incoming(
                        edges@,
                        #[trigger] keys@[i],
                        remaining_set(keys@, removed@),
                    ),
            decreases count_unmarked(removed@),
        {
            match find_removable(&edges, &keys, &removed) {
                Some(i) => {
                    let ghost before = removed@;
                    removed.set(i, true);
                    proof {
                        lemma_count_unmarked_update(before, i as int);
                        assert(!listed_incoming(edges@, keys@[i as int], remaining_set(keys@, before)));
                        lemma_remove_unfed(nodes, emap, keys@, before, i as int);
                    }
                },
                None => {
                    break;
                },
            }
        }
        let ghost rem = remaining_set(keys@, removed@);
        let mut any = false;
        let mut j: usize = 0;
        while j < n
            invariant
                j <= n,
                n == keys@.len(),
                removed@.len() == n,
                any == exists|i: int| 0 <= i < j && !(#[trigger] removed@[i]),
            decreases n - j,
        {
            if !removed[j] {
                any = true;
            }
            j = j + 1;
        }
        proof {
            assert forall|v: u64| #[trigger] rem.contains(v) implies has_incoming_from(emap, v, rem) by {
                let i = choose|i: int| 0 <= i < keys@.len() && keys@[i] == v && !removed@[i];
                assert(listed_incoming(edges@, keys@[i], rem));
            }
            lemma_stuck_decides(nodes, emap, rem);
            if any {
                let i = choose|i: int| 0 <= i < n && !(#[trigger] removed@[i]);
                assert(rem.contains(keys@[i]));
            } else {
                assert forall|v: u64| !rem.contains(v) by {
                    if rem.contains(v) {
                        let i = choose|i: int| 0 <= i < keys@.len() && keys@[i] == v && !removed@[i];
                    }
                }
            }
        }
        any
    }
}

/// The position of the port with identifier `id` in a port list, if any.
fn find_port(ports: &Vec<Port<usize>>, id: PortID) -> (r: Option<usize>)
    ensures
        r matches Some(i) ==> i < ports@.len() && ports@[i as int].id == id && i == port_pos(ports@, id),
        r is None ==> !has_port(ports@, id),
{
    let mut i: usize = 0;
    while i < ports.len()
        invariant
            i <= ports@.len(),
            forall|j: int| 0 <= j < i ==> (#[trigger] ports@[j]).id != id,
        decreases ports@.len() - i,
    {
        if ports[i].id == id {
            proof {
                lemma_port_pos(ports@, id, i as int);
            }
            return Some(i);
        }
        i = i + 1;
    }
    None
}

/// The position of the first port with identifier `id` (meaningful when
/// there is one).
pub open spec fn port_pos(ports: Seq<Port<usize>>, id: PortID) -> int {
    choose|i: int| 0 <= i < ports.len() && ports[i].id == id && forall|j: int| 0 <= j < i ==> (#[trigger] ports[j]).id != id
}

/// The kind index of the port with identifier `id` (the first one, if
/// several share it).
pub open spec fn port_type_of(ports: Seq<Port<usize>>, id: PortID) -> usize {
    ports[port_pos(ports, id)].port_type
}

/// The first port with a given identifier is at `port_pos`.
proof fn lemma_port_pos(ports: Seq<Port<usize>>, id: PortID, i: int)
    requires
        0 <= i < ports.len(),
        ports[i].id == id,
        forall|j: int| 0 <= j < i ==> (#[trigger] ports[j]).id != id,
    ensures
        port_pos(ports, id) == i,
{
    let c = port_pos(ports, id);
    assert(0 <= c < ports.len() && ports[c].id == id && forall|j: int| 0 <= j < c ==> (#[trigger] ports[j]).id != id);
    if c < i {
        assert(ports[c].id != id);
    } else if c > i {
        assert(ports[i].id != id);
    }
}

proof fn lemma_port_type_of(ports: Seq<Port<usize>>, id: PortID, i: int)
    requires
        0 <= i < ports.len(),
        ports[i].id == id,
        forall|a: int, b: int| 0 <= a < b < ports.len() ==> (#[trigger] ports[a]).id != (#[trigger] ports[b]).id,
    ensures
        port_type_of(ports, id) == ports[i].port_type,
        port_pos(ports, id) == i,
{
    assert forall|j: int| 0 <= j < i implies (#[trigger] ports[j]).id != id by {
        assert(ports[j].id != ports[i].id);
    }
    lemma_port_pos(ports, id, i);
}

/// An edge runs between the given ports.
pub open spec fn has_endpoints(e: Edge, s: NodeID, sp: PortID, d: NodeID, dp: PortID) -> bool {
    e.src_node == s && e.src_port == sp && e.dst_node == d && e.dst_port == dp
}

/// The stored edge between the given ports (meaningful when there is one).
pub open spec fn edge_with_endpoints(edges: Map<u64, Edge>, s: NodeID, sp: PortID, d: NodeID, dp: PortID) -> Edge {
    edges[choose|k: u64| edges.dom().contains(k) && has_endpoints(edges[k], s, sp, d, dp)]
}

/// Some stored edge runs between the given ports.
pub open spec fn endpoints_taken(edges: Map<u64, Edge>, s: NodeID, sp: PortID, d: NodeID, dp: PortID) -> bool {
    exists|k: u64| #[trigger] edges.dom().contains(k) && has_endpoints(edges[k], s, sp, d, dp)
}

/// The error, if any, that adding an edge between the given ports reports
/// before the cycle check.
pub open spec fn add_edge_precheck(
    nodes: Map<u64, Node<usize>>,
    edges: Map<u64, Edge>,
    s: NodeID,
    sp: PortID,
    d: NodeID,
    dp: PortID,
) -> Option<AddEdgeError> {
    let sk = s.spec_key();
    let dk = d.spec_key();
    if !nodes.dom().contains(sk) {
        Some(AddEdgeError::SrcNodeNotFound(s))
    } else if !has_port(nodes[sk].outputs@, sp) {
        Some(AddEdgeError::SrcPortNotFound(s, sp))
    } else if !nodes.dom().contains(dk) {
        Some(AddEdgeError::DstNodeNotFound(d))
    } else if !has_port(nodes[dk].inputs@, dp) {
        Some(AddEdgeError::DstPortNotFound(d, dp))
    } else if port_type_of(nodes[sk].outputs@, sp) != port_type_of(nodes[dk].inputs@, dp) {
        Some(AddEdgeError::TypeMismatch { src_node_id: s, src_port: sp, dst_node_id: d, dst_port: dp })
    } else if endpoints_taken(edges, s, sp, d, dp) {
        Some(AddEdgeError::EdgeAlreadyExists(edge_with_endpoints(edges, s, sp, d, dp)))
    } else if sk == dk {
        Some(AddEdgeError::CycleDetected)
    } else {
        None
    }
}

/// An edge from a node to itself is never added: checking it always
/// reports an error, and once both nodes, both ports and their kinds check
/// out and no edge joins the two ports yet, that error is `CycleDetected`.
pub proof fn lemma_add_edge_refuses_self_loop(
    nodes: Map<u64, Node<usize>>,
    edges: Map<u64, Edge>,
    s: NodeID,
    sp: PortID,
    d: NodeID,
    dp: PortID,
)
    requires
        s.spec_key() == d.spec_key(),
    ensures
        add_edge_precheck(nodes, edges, s, sp, d, dp) is Some,
        ({
            let k = s.spec_key();
            nodes.dom().contains(k) && has_port(nodes[k].outputs@, sp) && has_port(nodes[k].inputs@, dp)
                && port_type_of(nodes[k].outputs@, sp) == port_type_of(nodes[k].inputs@, dp)
                && !endpoints_taken(edges, s, sp, d, dp)
        }) ==> add_edge_precheck(nodes, edges, s, sp, d, dp) == Some(AddEdgeError::CycleDetected),
{
}

impl<PortType: Enum> AudioGraphHelper<PortType> {
    /// Checks an edge to add, in the order that `add_edge` reports errors,
    /// up to the cycle check.
    fn add_edge_check(
        &self,
        src_node_id: NodeID,
        src_port_id: PortID,
        dst_node_id: NodeID,
        dst_port_id: PortID,
    ) -> (r: Option<AddEdgeError>)
        requires
            self.wf(),
        ensures
            r == add_edge_precheck(
                self.spec_nodes(),
                self.spec_edges(),
                src_node_id,
                src_port_id,
                dst_node_id,
                dst_port_id,
            ),
    {
        let ghost nodes = self.spec_nodes();
        let ghost edges = self.spec_edges();
        let sk = src_node_id.key();
        let dk = dst_node_id.key();
        let src = match node_slots_get(&self.nodes, sk) {
            None => {
                return Some(AddEdgeError::SrcNodeNotFound(src_node_id));
            },
            Some(n) => n,
        };
        let si = match find_port(&src.outputs, src_port_id) {
            None => {
                return Some(AddEdgeError::SrcPortNotFound(src_node_id, src_port_id));
            },
            Some(i) => i,
        };
        let src_type = src.outputs[si].port_type;
        let dst = match node_slots_get(&self.nodes, dk) {
            None => {
                return Some(AddEdgeError::DstNodeNotFound(dst_node_id));
            },
            Some(n) => n,
        };
        let di = match find_port(&dst.inputs, dst_port_id) {
            None => {
                return Some(AddEdgeError::DstPortNotFound(dst_node_id, dst_port_id));
            },
            Some(i) => i,
        };
        let dst_type = dst.inputs[di].port_type;
        proof {
            assert(ports_unique(nodes[sk]));
            assert(ports_unique(nodes[dk]));
            lemma_port_type_of(nodes[sk].outputs@, src_port_id, si as int);
            lemma_port_type_of(nodes[dk].inputs@, dst_port_id, di as int);
        }
        if src_type != dst_type {
            return Some(AddEdgeError::TypeMismatch {
                src_node_id,
                src_port: src_port_id,
                dst_node_id,
                dst_port: dst_port_id,
            });
        }
        let list = edge_slots_iter(&self.edges);
        let mut i: usize = 0;
        let mut found: Option<usize> = None;
        while i < list.len()
            invariant_except_break
                found is None,
            invariant
                i <= list@.len(),
                sk == src_node_id.spec_key(),
                dk == dst_node_id.spec_key(),
                forall|j: int|
                    0 <= j < i ==> !((#[trigger] list@[j]).1.src_node.spec_key() == sk
                        && list@[j].1.src_port == src_port_id && list@[j].1.dst_node.spec_key() == dk
                        && list@[j].1.dst_port == dst_port_id),
            ensures
                found matches Some(j) ==> j < list@.len() && list@[j as int].1.src_node.spec_key() == sk
                    && list@[j as int].1.src_port == src_port_id && list@[j as int].1.dst_node.spec_key() == dk
                    && list@[j as int].1.dst_port == dst_port_id,
                found is None ==> forall|j: int|
                    0 <= j < list@.len() ==> !((#[trigger] list@[j]).1.src_node.spec_key() == sk
                        && list@[j].1.src_port == src_port_id && list@[j].1.dst_node.spec_key() == dk
                        && list@[j].1.dst_port == dst_port_id),
            decreases list@.len() - i,
        {
            let e = list[i].1;
            if e.src_node.key() == sk && e.src_port == src_port_id && e.dst_node.key() == dk
                && e.dst_port == dst_port_id {
                found = Some(i);
                break;
            }
            i = i + 1;
        }
        match found {
            Some(j) => {
                let e = list[j].1;
                proof {
                    let k = list@[j as int].0;
                    assert(edges.dom().contains(k) && edges[k] == e);
                    assert(has_endpoints(edges[k], src_node_id, src_port_id, dst_node_id, dst_port_id));
                    assert(endpoints_taken(edges, src_node_id, src_port_id, dst_node_id, dst_port_id));
                    let c = choose|c: u64|
                        edges.dom().contains(c) && has_endpoints(
                            edges[c],
                            src_node_id,
                            src_port_id,
                            dst_node_id,
                            dst_port_id,
                        );
                    if c != k {
                        assert(same_endpoints(edges[c], edges[k]));
                    }
                }
                return Some(AddEdgeError::EdgeAlreadyExists(e));
            },
            None => {},
        }
        proof {
            if endpoints_taken(edges, src_node_id, src_port_id, dst_node_id, dst_port_id) {
                let k = choose|k: u64|
                    #[trigger] edges.dom().contains(k) && has_endpoints(
                        edges[k],
                        src_node_id,
                        src_port_id,
                        dst_node_id,
                        dst_port_id,
                    );
                let j = choose|j: int| 0 <= j < list@.len() && (#[trigger] list@[j]).0 == k;
                assert(list@[j].1 == edges[k]);
            }
        }
        if sk == dk {
            return Some(AddEdgeError::CycleDetected);
        }
        None
    }

    /// Connects output port `src_port_id` of node `src_node_id` to input
    /// port `dst_port_id` of node `dst_node_id`, and returns the new edge's
    /// identifier, which was not in use.
    ///
    /// Errors, checked in this order: a missing source node or output port,
    /// a missing destination node or input port, ports of different kinds,
    /// an existing edge between the same ports, an edge from a node to
    /// itself, and, if `check_for_cycles`, an edge that would close a cycle.
    /// On error the graph is unchanged.
    #[verifier::rlimit(40)]
    pub fn add_edge(
        &mut self,
        src_node_id: NodeID,
        src_port_id: PortID,
        dst_node_id: NodeID,
        dst_port_id: PortID,
        check_for_cycles: bool,
    ) -> (r: Result<EdgeID, AddEdgeError>)
        requires
            old(self).wf(),
            old(self).spec_edges().dom().len() + 1 < u32::MAX,
        ensures
            final(self).wf(),
            final(self).spec_nodes() == old(self).spec_nodes(),
            src_node_id.spec_key() == dst_node_id.spec_key() ==> r is Err && final(self).spec_edges()
                == old(self).spec_edges(),
            ({
                let nodes = old(self).spec_nodes();
                let edges = old(self).spec_edges();
                match add_edge_precheck(nodes, edges, src_node_id, src_port_id, dst_node_id, dst_port_id) {
                    Some(err) => r == Err::<EdgeID, AddEdgeError>(err) && final(self).spec_edges() == edges
                        && final(self).spec_needs_compile() == old(self).spec_needs_compile(),
                    None => match r {
                        Ok(id) => {
                            &&& !edges.dom().contains(id.spec_key())
                            &&& final(self).spec_edges() == edges.insert(
                                id.spec_key(),
                                Edge { id, src_node: src_node_id, src_port: src_port_id, dst_node: dst_node_id, dst_port: dst_port_id },
                            )
                            &&& (check_for_cycles ==> !has_cycle(nodes.dom(), final(self).spec_edges()))
                            &&& final(self).spec_needs_compile()
                        },
                        Err(err) => {
                            &&& err == AddEdgeError::CycleDetected
                            &&& check_for_cycles
                            &&& exists|id: EdgeID|
                                !edges.dom().contains(id.spec_key()) && has_cycle(
                                    nodes.dom(),
                                    edges.insert(id.spec_key(), Edge { id, src_node: src_node_id, src_port: src_port_id, dst_node: dst_node_id, dst_port: dst_port_id }),
                                )
                            &&& final(self).spec_edges() == edges
                            &&& final(self).spec_needs_compile() == old(self).spec_needs_compile()
                        },
                    },
                }
            }),
    {
        let ghost nodes = self.spec_nodes();
        let ghost edges = self.spec_edges();
        proof {
            if src_node_id.spec_key() == dst_node_id.spec_key() {
                lemma_add_edge_refuses_self_loop(nodes, edges, src_node_id, src_port_id, dst_node_id, dst_port_id);
            }
        }
        match self.add_edge_check(src_node_id, src_port_id, dst_node_id, dst_port_id) {
            Some(err) => {
                return Err(err);
            },
            None => {},
        }
        let make = |k: u64| -> (e: Edge)
            requires
                is_key(k),
            ensures
                e.id.spec_key() == k,
                e.src_node == src_node_id,
                e.src_port == src_port_id,
                e.dst_node == dst_node_id,
                e.dst_port == dst_port_id,
        {
            Edge {
                id: EdgeID::from_key(k),
                src_node: src_node_id,
                src_port: src_port_id,
                dst_node: dst_node_id,
                dst_port: dst_port_id,
            }
        };
        let k = edge_slots_insert_with_key(&mut self.edges, make);
        let id = EdgeID::from_key(k);
        let ghost new_edge = Edge {
            id,
            src_node: src_node_id,
            src_port: src_port_id,
            dst_node: dst_node_id,
            dst_port: dst_port_id,
        };
        proof {
            assert(self.spec_edges()[k] == new_edge);
            assert(self.spec_edges() == edges.insert(k, new_edge));
            lemma_insert_edge_wf(nodes, edges, PortType::spec_count(), k, new_edge);
        }
        if check_for_cycles {
            if self.cycle_detected() {
                let _ = edge_slots_remove(&mut self.edges, k);
                proof {
                    assert(key_norm(k) == k);
                    assert(self.spec_edges() =~= edges);
                }
                return Err(AddEdgeError::CycleDetected);
            }
        }
        self.needs_compile = true;
        Ok(id)
    }
}

/// An edge uses port `port` of node `node`, or, when `port` is `None`, any
/// port of that node.
pub open spec fn edge_hits(e: Edge, node: u64, port: Option<PortID>) -> bool {
    match port {
        Some(p) => touches_port(e, node, p),
        None => touches_node(e, node),
    }
}

/// The edges that do not use port `port` of node `node` (any of its ports,
/// when `port` is `None`).
pub open spec fn edges_apart(edges: Map<u64, Edge>, node: u64, port: Option<PortID>) -> Map<u64, Edge> {
    Map::new(|k: u64| edges.dom().contains(k) && !edge_hits(edges[k], node, port), |k: u64| edges[k])
}

/// The keys of the edges that use port `port` of node `node` (any of its
/// ports, when `port` is `None`).
pub open spec fn edges_hitting(edges: Map<u64, Edge>, node: u64, port: Option<PortID>) -> Set<u64> {
    edges.dom().filter(|k: u64| edge_hits(edges[k], node, port))
}

/// Edge identifiers naming exactly the given keys, each once.
pub open spec fn ids_name_keys(ids: Seq<EdgeID>, keys: Set<u64>) -> bool {
    &&& forall|i: int, j: int| 0 <= i < j < ids.len() ==> (#[trigger] ids[i]) != (#[trigger] ids[j])
    &&& forall|i: int| 0 <= i < ids.len() ==> keys.contains((#[trigger] ids[i]).spec_key())
    &&& forall|k: u64| #[trigger] keys.contains(k) ==> exists|i: int| 0 <= i < ids.len() && (#[trigger] ids[i]).spec_key() == k
}

/// Removing edges keeps the graph well-formed.
proof fn lemma_drop_edges_wf(nodes: Map<u64, Node<usize>>, edges: Map<u64, Edge>, count: nat, kept: Map<u64, Edge>)
    requires
        graph_wf(nodes, edges, count),
        kept.dom().finite(),
        kept.dom().subset_of(edges.dom()),
        forall|k: u64| #[trigger] kept.dom().contains(k) ==> kept[k] == edges[k],
    ensures
        graph_wf(nodes, kept, count),
{
    assert forall|k1: u64, k2: u64|
        #[trigger] kept.dom().contains(k1) && #[trigger] kept.dom().contains(k2) && k1 != k2 implies !same_endpoints(
        kept[k1],
        kept[k2],
    ) by {
        assert(edges.dom().contains(k1) && edges.dom().contains(k2));
    }
}

impl<PortType: Enum> AudioGraphHelper<PortType> {
    /// Removes every edge that uses port `port_id` of node `node_id` (any of
    /// its ports, when `port_id` is `None`), and returns their identifiers.
    fn remove_edges_at(&mut self, node_id: NodeID, port_id: Option<PortID>) -> (ids: Vec<EdgeID>)
        requires
            keys_canonical(old(self).spec_edges()),
            forall|k: u64| #[trigger] old(self).spec_edges().dom().contains(k) ==> old(self).spec_edges()[k].id.spec_key() == k,
        ensures
            final(self).spec_nodes() == old(self).spec_nodes(),
            final(self).spec_needs_compile() == old(self).spec_needs_compile(),
            final(self).spec_edges() == edges_apart(old(self).spec_edges(), node_id.spec_key(), port_id),
            ids_name_keys(ids@, edges_hitting(old(self).spec_edges(), node_id.spec_key(), port_id)),
            forall|a: int, b: int|
                0 <= a < b < ids@.len() ==> slot_index((#[trigger] ids@[a]).spec_key()) < slot_index(
                    (#[trigger] ids@[b]).spec_key(),
                ),
    {
        let ghost edges = self.spec_edges();
        let ghost node = node_id.spec_key();
        let ghost hit = edges_hitting(edges, node, port_id);
        let nk = node_id.key();
        let list = edge_slots_iter(&self.edges);
        let mut ids: Vec<EdgeID> = Vec::new();
        let mut i: usize = 0;
        while i < list.len()
            invariant
                i <= list@.len(),
                nk == node,
                hit == edges_hitting(edges, node, port_id),
                forall|a: int, b: int| 0 <= a < b < list@.len() ==> (#[trigger] list@[a]).0 != (#[trigger] list@[b]).0,
                forall|j: int|
                    0 <= j < list@.len() ==> edges.dom().contains((#[trigger] list@[j]).0) && edges[list@[j].0] == list@[j].1,
                forall|k: u64| #[trigger] edges.dom().contains(k) ==> edges[k].id.spec_key() == k,
                forall|a: int, b: int| 0 <= a < b < ids@.len() ==> (#[trigger] ids@[a]) != (#[trigger] ids@[b]),
                forall|a: int| 0 <= a < ids@.len() ==> hit.contains((#[trigger] ids@[a]).spec_key()),
                forall|a: int| 0 <= a < ids@.len() ==> exists|j: int| 0 <= j < i && (#[trigger] list@[j]).0 == (#[trigger] ids@[a]).spec_key(),
                forall|a: int, b: int| 0 <= a < b < list@.len() ==> slot_index((#[trigger] list@[a]).0) < slot_index((#[trigger] list@[b]).0),
                forall|a: int, b: int|
                    0 <= a < b < ids@.len() ==> slot_index((#[trigger] ids@[a]).spec_key()) < slot_index(
                        (#[trigger] ids@[b]).spec_key(),
                    ),
                forall|j: int|
                    0 <= j < i && hit.contains((#[trigger] list@[j]).0) ==> exists|a: int| 0 <= a < ids@.len() && (#[trigger] ids@[a]).spec_key() == list@[j].0,
            decreases list@.len() - i,
        {
            let k = list[i].0;
            let e = list[i].1;
            let ghost ids0 = ids@;
            let hits = match port_id {
                Some(p) => (e.src_node.key() == nk && e.src_port == p) || (e.dst_node.key() == nk && e.dst_port == p),
                None => e.src_node.key() == nk || e.dst_node.key() == nk,
            };
            if hits {
                proof {
                    assert(edges.dom().contains(k) && edges[k] == e);
                    assert(hit.contains(k));
                    assert forall|a: int| 0 <= a < ids@.len() implies ids@[a] != e.id && slot_index(ids@[a].spec_key()) < slot_index(k) by {
                        let j = choose|j: int| 0 <= j < i && (#[trigger] list@[j]).0 == ids@[a].spec_key();
                        assert(list@[j].0 != list@[i as int].0);
                        assert(slot_index(list@[j].0) < slot_index(list@[i as int].0));
                    }
                }
                ids.push(e.id);
                proof {
                    let last = ids@.len() - 1;
                    assert(ids@[last].spec_key() == k);
                    assert forall|a: int, b: int|
                        0 <= a < b < ids@.len() implies slot_index((#[trigger] ids@[a]).spec_key()) < slot_index(
                            (#[trigger] ids@[b]).spec_key(),
                        ) by {
                        assert(ids@[a] == ids0[a]);
                        if b < last {
                            assert(ids@[b] == ids0[b]);
                        }
                    }
                    assert forall|a: int| 0 <= a < ids@.len() implies exists|j: int| 0 <= j < i + 1 && (#[trigger] list@[j]).0 == (#[trigger] ids@[a]).spec_key() by {
                        if a == last {
                            assert(list@[i as int].0 == ids@[a].spec_key());
                        } else {
                            assert(ids@[a] == ids0[a]);
                            let j = choose|j: int| 0 <= j < i && (#[trigger] list@[j]).0 == ids0[a].spec_key();
                            assert(list@[j].0 == ids@[a].spec_key());
                        }
                    }
                    assert forall|j: int| 0 <= j < i + 1 && hit.contains((#[trigger] list@[j]).0) implies exists|a: int| 0 <= a < ids@.len() && (#[trigger] ids@[a]).spec_key() == list@[j].0 by {
                        if j == i {
                            assert(ids@[last].spec_key() == list@[j].0);
                        } else {
                            let a = choose|a: int| 0 <= a < ids0.len() && (#[trigger] ids0[a]).spec_key() == list@[j].0;
                            assert(ids@[a] == ids0[a]);
                        }
                    }
                }
            } else {
                proof {
                    assert(edges.dom().contains(k) && edges[k] == e);
                    assert(!edge_hits(edges[k], node, port_id));
                    assert(!hit.contains(k));
                    assert forall|a: int| 0 <= a < ids@.len() implies exists|j: int| 0 <= j < i + 1 && (#[trigger] list@[j]).0 == (#[trigger] ids@[a]).spec_key() by {
                        let j = choose|j: int| 0 <= j < i && (#[trigger] list@[j]).0 == ids@[a].spec_key();
                        assert(list@[j].0 == ids@[a].spec_key());
                    }
                    assert forall|j: int| 0 <= j < i + 1 && hit.contains((#[trigger] list@[j]).0) implies exists|a: int| 0 <= a < ids@.len() && (#[trigger] ids@[a]).spec_key() == list@[j].0 by {
                        if j != i {
                            let a = choose|a: int| 0 <= a < ids@.len() && (#[trigger] ids@[a]).spec_key() == list@[j].0;
                        }
                    }
                }
            }
            i = i + 1;
        }
        proof {
            assert forall|k: u64| #[trigger] hit.contains(k) implies exists|a: int| 0 <= a < ids@.len() && (#[trigger] ids@[a]).spec_key() == k by {
                assert(edges.dom().contains(k));
                let j = choose|j: int| 0 <= j < list@.len() && (#[trigger] list@[j]).0 == k;
                assert(hit.contains(list@[j].0));
            }
        }
        let mut m: usize = 0;
        while m < ids.len()
            invariant
                m <= ids@.len(),
                forall|a: int, b: int| 0 <= a < b < ids@.len() ==> (#[trigger] ids@[a]) != (#[trigger] ids@[b]),
                forall|a: int| 0 <= a < ids@.len() ==> hit.contains((#[trigger] ids@[a]).spec_key()),
                hit.subset_of(edges.dom()),
                keys_canonical(edges),
                self.spec_nodes() == old(self).spec_nodes(),
                self.needs_compile == old(self).needs_compile,
                self.spec_edges() == edges.remove_keys(Set::new(|k: u64| exists|a: int| 0 <= a < m && (#[trigger] ids@[a]).spec_key() == k)),
            decreases ids@.len() - m,
        {
            let id = ids[m];
            let k = id.key();
            let ghost before = self.spec_edges();
            let _ = edge_slots_remove(&mut self.edges, k);
            proof {
                assert(key_norm(k) == k);
                assert(self.spec_edges() =~= edges.remove_keys(Set::new(|k2: u64| exists|a: int| 0 <= a < m + 1 && (#[trigger] ids@[a]).spec_key() == k2)));
            }
            m = m + 1;
        }
        proof {
            assert(self.spec_edges() =~= edges_apart(edges, node, port_id)) by {
                assert forall|k: u64| #[trigger] self.spec_edges().dom().contains(k) == edges_apart(edges, node, port_id).dom().contains(k) by {
                    if edges.dom().contains(k) && edge_hits(edges[k], node, port_id) {
                        assert(hit.contains(k));
                    }
                    if exists|a: int| 0 <= a < ids@.len() && (#[trigger] ids@[a]).spec_key() == k {
                        let a = choose|a: int| 0 <= a < ids@.len() && (#[trigger] ids@[a]).spec_key() == k;
                        assert(hit.contains(ids@[a].spec_key()));
                    }
                }
            }
        }
        ids
    }

    /// Removes the edge `edge_id`; the graph is unchanged if there is no such
    /// edge.
    pub fn remove_edge(&mut self, edge_id: EdgeID) -> (r: Result<(), ()>)
        requires
            old(self).wf(),
        ensures
            final(self).wf(),
            final(self).spec_nodes() == old(self).spec_nodes(),
            old(self).spec_edges().dom().contains(edge_id.spec_key()) ==> r is Ok && final(self).spec_edges()
                == old(self).spec_edges().remove(edge_id.spec_key()) && final(self).spec_needs_compile(),
            !old(self).spec_edges().dom().contains(edge_id.spec_key()) ==> r is Err && final(self).spec_edges()
                == old(self).spec_edges() && final(self).spec_needs_compile() == old(self).spec_needs_compile(),
    {
        let k = edge_id.key();
        let ghost edges = self.spec_edges();
        match edge_slots_remove(&mut self.edges, k) {
            None => {
                proof {
                    assert(self.spec_edges() =~= edges);
                }
                Err(())
            },
            Some(_) => {
                proof {
                    lemma_drop_edges_wf(self.spec_nodes(), edges, PortType::spec_count(), self.spec_edges());
                }
                self.needs_compile = true;
                Ok(())
            },
        }
    }

    /// Lists all edges, each once.
    pub fn edges(&self) -> (r: Vec<Edge>)
        requires
            self.wf(),
        ensures
            forall|i: int, j: int| 0 <= i < j < r@.len() ==> (#[trigger] r@[i]).id != (#[trigger] r@[j]).id,
            forall|i: int|
                0 <= i < r@.len() ==> self.spec_edges().dom().contains((#[trigger] r@[i]).id.spec_key())
                    && self.spec_edges()[r@[i].id.spec_key()] == r@[i],
            forall|k: u64| #[trigger] self.spec_edges().dom().contains(k) ==> exists|i: int| 0 <= i < r@.len() && (#[trigger] r@[i]).id.spec_key() == k,
    {
        let list = edge_slots_iter(&self.edges);
        let mut r: Vec<Edge> = Vec::with_capacity(list.len());
        let mut i: usize = 0;
        while i < list.len()
            invariant
                i <= list@.len(),
                r@.len() == i,
                forall|a: int, b: int| 0 <= a < b < list@.len() ==> (#[trigger] list@[a]).0 != (#[trigger] list@[b]).0,
                forall|j: int|
                    0 <= j < list@.len() ==> self.spec_edges().dom().contains((#[trigger] list@[j]).0) && self.spec_edges()[list@[j].0] == list@[j].1,
                forall|k: u64| #[trigger] self.spec_edges().dom().contains(k) ==> self.spec_edges()[k].id.spec_key() == k,
                forall|j: int| 0 <= j < i ==> (#[trigger] r@[j]) == list@[j].1,
            decreases list@.len() - i,
        {
            r.push(list[i].1);
            i = i + 1;
        }
        proof {
            assert forall|a: int, b: int| 0 <= a < b < r@.len() implies (#[trigger] r@[a]).id != (#[trigger] r@[b]).id by {
                assert(list@[a].0 != list@[b].0);
            }
            assert forall|k: u64| #[trigger] self.spec_edges().dom().contains(k) implies exists|i: int| 0 <= i < r@.len() && (#[trigger] r@[i]).id.spec_key() == k by {
                let j = choose|j: int| 0 <= j < list@.len() && (#[trigger] list@[j]).0 == k;
                assert(r@[j] == list@[j].1);
            }
        }
        r
    }
}


/// A copy of a port list.
fn copy_ports(ports: &Vec<Port<usize>>) -> (r: Vec<Port<usize>>)
    ensures
        r@ == ports@,
{
    let mut r: Vec<Port<usize>> = Vec::with_capacity(ports.len());
    let mut i: usize = 0;
    while i < ports.len()
        invariant
            i <= ports@.len(),
            r@ == ports@.take(i as int),
        decreases ports@.len() - i,
    {
        r.push(ports[i]);
        i = i + 1;
        assert(r@ =~= ports@.take(i as int));
    }
    assert(r@ =~= ports@);
    r
}

/// A port list with its kind indices read as values of `PortType`.
pub open spec fn typed_ports<PortType: Enum>(ports: Seq<Port<usize>>) -> Seq<Port<PortType>> {
    Seq::new(
        ports.len(),
        |i: int| Port { id: ports[i].id, port_type: PortType::spec_variant(ports[i].port_type as nat) },
    )
}

/// `t` is the stored node `n` with its port kinds read as values of
/// `PortType`.
pub open spec fn typed_node<PortType: Enum>(n: Node<usize>, t: Node<PortType>) -> bool {
    &&& t.id == n.id
    &&& t.inputs@ == typed_ports::<PortType>(n.inputs@)
    &&& t.outputs@ == typed_ports::<PortType>(n.outputs@)
    &&& t.latency == n.latency
}

/// Reads the kind indices of a port list as values of `PortType`.
fn to_typed_ports<PortType: Enum>(ports: &Vec<Port<usize>>) -> (r: Vec<Port<PortType>>)
    requires
        PortType::spec_fits(),
        forall|i: int| 0 <= i < ports@.len() ==> (#[trigger] ports@[i]).port_type < PortType::spec_count(),
    ensures
        r@ == typed_ports::<PortType>(ports@),
{
    let mut r: Vec<Port<PortType>> = Vec::with_capacity(ports.len());
    let mut i: usize = 0;
    while i < ports.len()
        invariant
            i <= ports@.len(),
            PortType::spec_fits(),
            forall|j: int| 0 <= j < ports@.len() ==> (#[trigger] ports@[j]).port_type < PortType::spec_count(),
            r@ == typed_ports::<PortType>(ports@).take(i as int),
        decreases ports@.len() - i,
    {
        let p = ports[i];
        r.push(Port { id: p.id, port_type: PortType::from_usize(p.port_type) });
        i = i + 1;
        assert(r@ =~= typed_ports::<PortType>(ports@).take(i as int));
    }
    assert(r@ =~= typed_ports::<PortType>(ports@));
    r
}

/// Reads the port kinds of a stored node as values of `PortType`.
fn to_typed_node<PortType: Enum>(n: &Node<usize>) -> (t: Node<PortType>)
    requires
        PortType::spec_fits(),
        port_types_below(*n, PortType::spec_count()),
    ensures
        typed_node(*n, t),
{
    Node { id: n.id, inputs: to_typed_ports(&n.inputs), outputs: to_typed_ports(&n.outputs), latency: n.latency }
}

/// Replacing a node by one with the same identifier and well-formed ports,
/// which keeps every port of the old node except `gone`, keeps the graph
/// well-formed when no edge uses `gone`.
proof fn lemma_replace_node_wf(
    nodes: Map<u64, Node<usize>>,
    edges: Map<u64, Edge>,
    count: nat,
    k: u64,
    n2: Node<usize>,
    gone: Option<PortID>,
)
    requires
        graph_wf(nodes, edges, count),
        nodes.dom().contains(k),
        n2.id == nodes[k].id,
        ports_unique(n2),
        port_types_below(n2, count),
        forall|q: PortID|
            #![trigger has_port(nodes[k].inputs@, q)]
            has_port(nodes[k].inputs@, q) && gone != Some(q) ==> has_port(n2.inputs@, q),
        forall|q: PortID|
            #![trigger has_port(nodes[k].outputs@, q)]
            has_port(nodes[k].outputs@, q) && gone != Some(q) ==> has_port(n2.outputs@, q),
        forall|e: u64| #[trigger] edges.dom().contains(e) ==> !edge_hits(edges[e], k, gone) || gone is None,
    ensures
        graph_wf(nodes.insert(k, n2), edges, count),
{
    let nn = nodes.insert(k, n2);
    assert forall|e: u64| #[trigger] edges.dom().contains(e) implies edge_attached(nn, edges[e]) by {
        let ed = edges[e];
        assert(edge_attached(nodes, ed));
        if ed.src_node.spec_key() == k {
            assert(has_port(nodes[k].outputs@, ed.src_port));
        }
        if ed.dst_node.spec_key() == k {
            assert(has_port(nodes[k].inputs@, ed.dst_port));
        }
    }
}

/// Removing a port from a list of ports with distinct identifiers keeps the
/// other ports and introduces none.
proof fn lemma_remove_port_seq(ports: Seq<Port<usize>>, i: int)
    requires
        0 <= i < ports.len(),
    ensures
        forall|q: PortID|
            #![trigger has_port(ports, q)]
            has_port(ports, q) && q != ports[i].id ==> has_port(ports.remove(i), q),
        forall|a: int|
            0 <= a < ports.remove(i).len() ==> (#[trigger] ports.remove(i)[a]) == (if a < i {
                ports[a]
            } else {
                ports[a + 1]
            }),
{
    ports.remove_ensures(i);
    assert forall|q: PortID|
        #![trigger has_port(ports, q)]
        has_port(ports, q) && q != ports[i].id implies has_port(ports.remove(i), q) by {
        let j = choose|j: int| 0 <= j < ports.len() && (#[trigger] ports[j]).id == q;
        if j < i {
            assert(ports.remove(i)[j] == ports[j]);
        } else {
            assert(j != i);
            assert(ports.remove(i)[j - 1] == ports[j]);
        }
    }
}

/// Removing the port at position `i` of a node's inputs (or outputs, when
/// not `from_inputs`) keeps its ports well-formed and keeps every other port.
proof fn lemma_remove_port_node(n: Node<usize>, n2: Node<usize>, count: nat, p: PortID, from_inputs: bool, i: int)
    requires
        ports_unique(n),
        port_types_below(n, count),
        from_inputs ==> 0 <= i < n.inputs@.len() && n.inputs@[i].id == p && n2.inputs@ == n.inputs@.remove(i)
            && n2.outputs@ == n.outputs@,
        !from_inputs ==> 0 <= i < n.outputs@.len() && n.outputs@[i].id == p && n2.outputs@ == n.outputs@.remove(i)
            && n2.inputs@ == n.inputs@,
    ensures
        ports_unique(n2),
        port_types_below(n2, count),
        forall|q: PortID|
            #![trigger has_port(n.inputs@, q)]
            has_port(n.inputs@, q) && Some(p) != Some(q) ==> has_port(n2.inputs@, q),
        forall|q: PortID|
            #![trigger has_port(n.outputs@, q)]
            has_port(n.outputs@, q) && Some(p) != Some(q) ==> has_port(n2.outputs@, q),
{
    let ins = n.inputs@;
    let outs = n.outputs@;
    if from_inputs {
        lemma_remove_port_seq(ins, i);
        assert forall|a: int, b: int| 0 <= a < b < n2.inputs@.len() implies (#[trigger] n2.inputs@[a]).id != (#[trigger] n2.inputs@[b]).id by {
            let fa = if a < i { a } else { a + 1 };
            let fb = if b < i { b } else { b + 1 };
            assert(n2.inputs@[a] == ins[fa]);
            assert(n2.inputs@[b] == ins[fb]);
            assert(ins[fa].id != ins[fb].id);
        }
        assert forall|a: int, b: int| 0 <= a < n2.inputs@.len() && 0 <= b < n2.outputs@.len() implies (#[trigger] n2.inputs@[a]).id != (#[trigger] n2.outputs@[b]).id by {
            let fa = if a < i { a } else { a + 1 };
            assert(n2.inputs@[a] == ins[fa]);
            assert(ins[fa].id != outs[b].id);
        }
        assert forall|a: int| 0 <= a < n2.inputs@.len() implies (#[trigger] n2.inputs@[a]).port_type < count by {
            let fa = if a < i { a } else { a + 1 };
            assert(n2.inputs@[a] == ins[fa]);
        }
        assert forall|q: PortID| #![trigger has_port(outs, q)] has_port(outs, q) implies has_port(n2.outputs@, q) by {}
    } else {
        lemma_remove_port_seq(outs, i);
        assert forall|a: int, b: int| 0 <= a < b < n2.outputs@.len() implies (#[trigger] n2.outputs@[a]).id != (#[trigger] n2.outputs@[b]).id by {
            let fa = if a < i { a } else { a + 1 };
            let fb = if b < i { b } else { b + 1 };
            assert(n2.outputs@[a] == outs[fa]);
            assert(n2.outputs@[b] == outs[fb]);
            assert(outs[fa].id != outs[fb].id);
        }
        assert forall|a: int, b: int| 0 <= a < n2.inputs@.len() && 0 <= b < n2.outputs@.len() implies (#[trigger] n2.inputs@[a]).id != (#[trigger] n2.outputs@[b]).id by {
            let fb = if b < i { b } else { b + 1 };
            assert(n2.outputs@[b] == outs[fb]);
            assert(ins[a].id != outs[fb].id);
        }
        assert forall|a: int| 0 <= a < n2.outputs@.len() implies (#[trigger] n2.outputs@[a]).port_type < count by {
            let fa = if a < i { a } else { a + 1 };
            assert(n2.outputs@[a] == outs[fa]);
        }
        assert forall|q: PortID| #![trigger has_port(ins, q)] has_port(ins, q) implies has_port(n2.inputs@, q) by {}
    }
}

impl<PortType: Enum> AudioGraphHelper<PortType> {
    /// The node `node_id`, with its ports' kinds, or `None` if there is no
    /// such node.
    pub fn node(&self, node_id: NodeID) -> (r: Option<Node<PortType>>)
        requires
            self.wf(),
        ensures
            match r {
                None => !self.spec_nodes().dom().contains(node_id.spec_key()),
                Some(t) => self.spec_nodes().dom().contains(node_id.spec_key()) && typed_node(
                    self.spec_nodes()[node_id.spec_key()],
                    t,
                ),
            },
    {
        match node_slots_get(&self.nodes, node_id.key()) {
            None => None,
            Some(n) => Some(to_typed_node(n)),
        }
    }

    /// Lists all nodes, each once, with their ports' kinds.
    pub fn nodes(&self) -> (r: Vec<Node<PortType>>)
        requires
            self.wf(),
        ensures
            forall|i: int, j: int| 0 <= i < j < r@.len() ==> (#[trigger] r@[i]).id != (#[trigger] r@[j]).id,
            forall|i: int|
                0 <= i < r@.len() ==> self.spec_nodes().dom().contains((#[trigger] r@[i]).id.spec_key())
                    && typed_node(self.spec_nodes()[r@[i].id.spec_key()], r@[i]),
            forall|k: u64| #[trigger] self.spec_nodes().dom().contains(k) ==> exists|i: int| 0 <= i < r@.len() && (#[trigger] r@[i]).id.spec_key() == k,
    {
        let ghost nodes = self.spec_nodes();
        let keys = node_slots_keys(&self.nodes);
        let mut r: Vec<Node<PortType>> = Vec::with_capacity(keys.len());
        let mut i: usize = 0;
        while i < keys.len()
            invariant
                self.wf(),
                nodes == self.spec_nodes(),
                i <= keys@.len(),
                r@.len() == i,
                keys@.no_duplicates(),
                forall|j: int| 0 <= j < keys@.len() ==> nodes.dom().contains(#[trigger] keys@[j]),
                forall|j: int|
                    0 <= j < i ==> (#[trigger] r@[j]).id.spec_key() == keys@[j] && typed_node(nodes[keys@[j]], r@[j]),
            decreases keys@.len() - i,
        {
            let k = keys[i];
            proof {
                assert(nodes.dom().contains(k));
                assert(is_key(k));
            }
            match node_slots_get(&self.nodes, k) {
                Some(n) => {
                    r.push(to_typed_node(n));
                },
                None => {},
            }
            i = i + 1;
        }
        proof {
            assert forall|a: int, b: int| 0 <= a < b < r@.len() implies (#[trigger] r@[a]).id != (#[trigger] r@[b]).id by {
                assert(keys@[a] != keys@[b]);
            }
            assert forall|k: u64| #[trigger] nodes.dom().contains(k) implies exists|i: int| 0 <= i < r@.len() && (#[trigger] r@[i]).id.spec_key() == k by {
                let j = choose|j: int| 0 <= j < keys@.len() && keys@[j] == k;
                assert(r@[j].id.spec_key() == k);
            }
        }
        r
    }

    /// Sets the latency of node `node_id`; an error if there is no such
    /// node, and then the graph is unchanged. Latencies are compared as
    /// floats: when the new one equals the stored one (a zero of either sign
    /// equals a zero; a NaN equals nothing) the graph is unchanged; otherwise
    /// it is stored and the graph needs compiling again.
    pub fn set_node_latency(&mut self, node_id: NodeID, latency: u64) -> (r: Result<(), ()>)
        requires
            old(self).wf(),
        ensures
            final(self).wf(),
            final(self).spec_edges() == old(self).spec_edges(),
            ({
                let k = node_id.spec_key();
                let nodes = old(self).spec_nodes();
                if nodes.dom().contains(k) && float_bits_eq(nodes[k].latency, latency) {
                    &&& r is Ok
                    &&& final(self).spec_nodes() == nodes
                    &&& final(self).spec_needs_compile() == old(self).spec_needs_compile()
                } else if nodes.dom().contains(k) {
                    &&& r is Ok
                    &&& final(self).spec_nodes() == nodes.insert(k, final(self).spec_nodes()[k])
                    &&& final(self).spec_nodes()[k].id == nodes[k].id
                    &&& final(self).spec_nodes()[k].inputs@ == nodes[k].inputs@
                    &&& final(self).spec_nodes()[k].outputs@ == nodes[k].outputs@
                    &&& final(self).spec_nodes()[k].latency == latency
                    &&& final(self).spec_needs_compile()
                } else {
                    &&& r is Err
                    &&& final(self).spec_nodes() == nodes
                    &&& final(self).spec_needs_compile() == old(self).spec_needs_compile()
                }
            }),
    {
        let ghost nodes = self.spec_nodes();
        let k = node_id.key();
        let n = match node_slots_get(&self.nodes, k) {
            None => {
                return Err(());
            },
            Some(n) => n,
        };
        if !float_bits_equal(n.latency, latency) {
            let n2 = Node { id: n.id, inputs: copy_ports(&n.inputs), outputs: copy_ports(&n.outputs), latency };
            proof {
                assert(ports_unique(nodes[k]));
                assert(port_types_below(nodes[k], PortType::spec_count()));
                lemma_replace_node_wf(nodes, self.spec_edges(), PortType::spec_count(), k, n2, None);
            }
            node_slots_replace(&mut self.nodes, k, n2);
            self.needs_compile = true;
        }
        Ok(())
    }

    /// Adds port `port_id` of kind `port_type` to node `node_id`, as an
    /// input if `is_input` and as an output otherwise.
    ///
    /// Errors: no node `node_id`, or a port `port_id` already on it (among
    /// inputs or outputs). On error the graph is unchanged.
    pub fn add_port(&mut self, node_id: NodeID, port_id: PortID, port_type: PortType, is_input: bool) -> (r: Result<(), AddPortError>)
        requires
            old(self).wf(),
        ensures
            final(self).wf(),
            final(self).spec_edges() == old(self).spec_edges(),
            ({
                let k = node_id.spec_key();
                let nodes = old(self).spec_nodes();
                let new_port = Port { id: port_id, port_type: port_type.spec_index() as usize };
                if !nodes.dom().contains(k) {
                    &&& r == Err::<(), AddPortError>(AddPortError::NodeNotFound(node_id))
                    &&& final(self).spec_nodes() == nodes
                    &&& final(self).spec_needs_compile() == old(self).spec_needs_compile()
                } else if has_port(nodes[k].inputs@, port_id) || has_port(nodes[k].outputs@, port_id) {
                    &&& r == Err::<(), AddPortError>(AddPortError::PortAlreadyExists(node_id, port_id))
                    &&& final(self).spec_nodes() == nodes
                    &&& final(self).spec_needs_compile() == old(self).spec_needs_compile()
                } else {
                    &&& r is Ok
                    &&& final(self).spec_nodes() == nodes.insert(k, final(self).spec_nodes()[k])
                    &&& final(self).spec_nodes()[k].id == nodes[k].id
                    &&& final(self).spec_nodes()[k].latency == nodes[k].latency
                    &&& final(self).spec_nodes()[k].inputs@ == (if is_input {
                        nodes[k].inputs@.push(new_port)
                    } else {
                        nodes[k].inputs@
                    })
                    &&& final(self).spec_nodes()[k].outputs@ == (if is_input {
                        nodes[k].outputs@
                    } else {
                        nodes[k].outputs@.push(new_port)
                    })
                    &&& final(self).spec_needs_compile()
                }
            }),
    {
        let ghost nodes = self.spec_nodes();
        let k = node_id.key();
        let n = match node_slots_get(&self.nodes, k) {
            None => {
                return Err(AddPortError::NodeNotFound(node_id));
            },
            Some(n) => n,
        };
        if find_port(&n.inputs, port_id).is_some() || find_port(&n.outputs, port_id).is_some() {
            return Err(AddPortError::PortAlreadyExists(node_id, port_id));
        }
        let t = port_type.to_usize();
        let new_port = Port { id: port_id, port_type: t };
        let mut inputs = copy_ports(&n.inputs);
        let mut outputs = copy_ports(&n.outputs);
        if is_input {
            inputs.push(new_port);
        } else {
            outputs.push(new_port);
        }
        let n2 = Node { id: n.id, inputs, outputs, latency: n.latency };
        proof {
            let old_n = nodes[k];
            assert(ports_unique(old_n));
            assert(port_types_below(old_n, PortType::spec_count()));
            assert forall|i: int| 0 <= i < old_n.inputs@.len() implies n2.inputs@[i] == old_n.inputs@[i] by {}
            assert forall|i: int| 0 <= i < old_n.outputs@.len() implies n2.outputs@[i] == old_n.outputs@[i] by {}
            assert forall|q: PortID| #![trigger has_port(old_n.inputs@, q)] has_port(old_n.inputs@, q) implies has_port(n2.inputs@, q) by {
                let i = choose|i: int| 0 <= i < old_n.inputs@.len() && (#[trigger] old_n.inputs@[i]).id == q;
                assert(n2.inputs@[i] == old_n.inputs@[i]);
            }
            assert forall|q: PortID| #![trigger has_port(old_n.outputs@, q)] has_port(old_n.outputs@, q) implies has_port(n2.outputs@, q) by {
                let i = choose|i: int| 0 <= i < old_n.outputs@.len() && (#[trigger] old_n.outputs@[i]).id == q;
                assert(n2.outputs@[i] == old_n.outputs@[i]);
            }
            assert forall|i: int| 0 <= i < old_n.inputs@.len() implies (#[trigger] old_n.inputs@[i]).id != port_id by {
                if old_n.inputs@[i].id == port_id {
                    assert(has_port(old_n.inputs@, port_id));
                }
            }
            assert forall|i: int| 0 <= i < old_n.outputs@.len() implies (#[trigger] old_n.outputs@[i]).id != port_id by {
                if old_n.outputs@[i].id == port_id {
                    assert(has_port(old_n.outputs@, port_id));
                }
            }
            assert(ports_unique(n2));
            assert(port_types_below(n2, PortType::spec_count()));
            lemma_replace_node_wf(nodes, self.spec_edges(), PortType::spec_count(), k, n2, None);
        }
        node_slots_replace(&mut self.nodes, k, n2);
        self.needs_compile = true;
        Ok(())
    }

    /// Removes port `port_id` from node `node_id` (from its inputs if it is
    /// one, else from its outputs), together with every edge that uses it,
    /// and returns the removed edges' identifiers in slot order.
    ///
    /// Errors: no node `node_id`, or no port `port_id` on it. On error the
    /// graph is unchanged.
    pub fn remove_port(&mut self, node_id: NodeID, port_id: PortID) -> (r: Result<Vec<EdgeID>, RemovePortError>)
        requires
            old(self).wf(),
        ensures
            final(self).wf(),
            ({
                let k = node_id.spec_key();
                let nodes = old(self).spec_nodes();
                let edges = old(self).spec_edges();
                if !nodes.dom().contains(k) {
                    &&& r == Err::<Vec<EdgeID>, RemovePortError>(RemovePortError::NodeNotFound(node_id))
                    &&& final(self).spec_nodes() == nodes
                    &&& final(self).spec_edges() == edges
                    &&& final(self).spec_needs_compile() == old(self).spec_needs_compile()
                } else if !has_port(nodes[k].inputs@, port_id) && !has_port(nodes[k].outputs@, port_id) {
                    &&& r == Err::<Vec<EdgeID>, RemovePortError>(RemovePortError::PortNotFound(node_id, port_id))
                    &&& final(self).spec_nodes() == nodes
                    &&& final(self).spec_edges() == edges
                    &&& final(self).spec_needs_compile() == old(self).spec_needs_compile()
                } else {
                    let ins = nodes[k].inputs@;
                    let outs = nodes[k].outputs@;
                    &&& r matches Ok(ids) && ids_name_keys(ids@, edges_hitting(edges, k, Some(port_id)))
                        && forall|a: int, b: int|
                        0 <= a < b < ids@.len() ==> slot_index((#[trigger] ids@[a]).spec_key()) < slot_index(
                            (#[trigger] ids@[b]).spec_key(),
                        )
                    &&& final(self).spec_nodes() == nodes.insert(k, final(self).spec_nodes()[k])
                    &&& final(self).spec_nodes()[k].id == nodes[k].id
                    &&& final(self).spec_nodes()[k].latency == nodes[k].latency
                    &&& final(self).spec_nodes()[k].inputs@ == (if has_port(ins, port_id) {
                        ins.remove(port_pos(ins, port_id))
                    } else {
                        ins
                    })
                    &&& final(self).spec_nodes()[k].outputs@ == (if has_port(ins, port_id) {
                        outs
                    } else {
                        outs.remove(port_pos(outs, port_id))
                    })
                    &&& final(self).spec_edges() == edges_apart(edges, k, Some(port_id))
                    &&& final(self).spec_needs_compile()
                }
            }),
    {
        let ghost nodes = self.spec_nodes();
        let ghost edges = self.spec_edges();
        let k = node_id.key();
        let n = match node_slots_get(&self.nodes, k) {
            None => {
                return Err(RemovePortError::NodeNotFound(node_id));
            },
            Some(n) => n,
        };
        let mut inputs = copy_ports(&n.inputs);
        let mut outputs = copy_ports(&n.outputs);
        let nid = n.id;
        let latency = n.latency;
        let ghost old_n = nodes[k];
        let ghost mut from_inputs = true;
        let ghost mut gi: int = 0;
        match find_port(&inputs, port_id) {
            Some(i) => {
                proof {
                    gi = i as int;
                }
                inputs.remove(i);
            },
            None => match find_port(&outputs, port_id) {
                Some(i) => {
                    proof {
                        from_inputs = false;
                        gi = i as int;
                    }
                    outputs.remove(i);
                },
                None => {
                    return Err(RemovePortError::PortNotFound(node_id, port_id));
                },
            },
        }
        let n2 = Node { id: nid, inputs, outputs, latency };
        let ids = self.remove_edges_at(node_id, Some(port_id));
        proof {
            assert(ports_unique(old_n));
            assert(port_types_below(old_n, PortType::spec_count()));
            lemma_remove_port_node(old_n, n2, PortType::spec_count(), port_id, from_inputs, gi);
            let kept = self.spec_edges();
            vstd::set_lib::lemma_set_subset_finite(edges.dom(), kept.dom());
            lemma_drop_edges_wf(nodes, edges, PortType::spec_count(), kept);
            lemma_replace_node_wf(nodes, kept, PortType::spec_count(), k, n2, Some(port_id));
        }
        node_slots_replace(&mut self.nodes, k, n2);
        self.needs_compile = true;
        Ok(ids)
    }

    /// Removes node `node_id` and every edge that starts or ends at it, and
    /// returns the removed edges' identifiers; an error if there is no such
    /// node, and then the graph is unchanged.
    ///
    /// The edges are removed port by port, the node's inputs first, then its
    /// outputs; the identifiers come in that order, those removed at one
    /// port in slot order.
    pub fn remove_node(&mut self, node_id: NodeID) -> (r: Result<Vec<EdgeID>, ()>)
        requires
            old(self).wf(),
        ensures
            final(self).wf(),
            ({
                let k = node_id.spec_key();
                let nodes = old(self).spec_nodes();
                let edges = old(self).spec_edges();
                if nodes.dom().contains(k) {
                    &&& r matches Ok(ids) && ids_name_keys(ids@, edges_hitting(edges, k, None)) && removal_ordered(
                        ids@,
                        edges,
                        k,
                        node_ports(nodes[k]),
                    )
                    &&& final(self).spec_nodes() == nodes.remove(k)
                    &&& final(self).spec_edges() == edges_apart(edges, k, None)
                    &&& final(self).spec_needs_compile()
                } else {
                    &&& r is Err
                    &&& final(self).spec_nodes() == nodes
                    &&& final(self).spec_edges() == edges
                    &&& final(self).spec_needs_compile() == old(self).spec_needs_compile()
                }
            }),
    {
        let ghost nodes = self.spec_nodes();
        let ghost edges = self.spec_edges();
        let k = node_id.key();
        let node = match node_slots_remove(&mut self.nodes, k) {
            None => {
                proof {
                    assert(self.spec_nodes() =~= nodes);
                }
                return Err(());
            },
            Some(n) => n,
        };
        let ports = port_ids(&node);
        let ghost pseq = ports@;
        let mut ids: Vec<EdgeID> = Vec::new();
        let mut j: usize = 0;
        proof {
            assert(edges_off_ports(edges, k, pseq, 0) =~= edges);
            assert(ids_name_keys(ids@, Set::new(|e: u64| edges.dom().contains(e) && touches_first_ports(edges[e], k, pseq, 0))));
        }
        while j < ports.len()
            invariant
                j <= pseq.len(),
                ports@ == pseq,
                k == node_id.spec_key(),
                keys_canonical(edges),
                forall|e: u64| #[trigger] edges.dom().contains(e) ==> edges[e].id.spec_key() == e,
                self.spec_nodes() == nodes.remove(k),
                self.spec_needs_compile() == old(self).spec_needs_compile(),
                self.spec_edges() == edges_off_ports(edges, k, pseq, j as int),
                ids_name_keys(ids@, Set::new(|e: u64| edges.dom().contains(e) && touches_first_ports(edges[e], k, pseq, j as int))),
                removal_ordered(ids@, edges, k, pseq),
                forall|a: int| 0 <= a < ids@.len() ==> first_port(edges[(#[trigger] ids@[a]).spec_key()], k, pseq) < j,
            decreases pseq.len() - j,
        {
            let ghost cur = self.spec_edges();
            let ghost ids0 = ids@;
            let ghost p = pseq[j as int];
            proof {
                vstd::set_lib::lemma_set_subset_finite(edges.dom(), cur.dom());
            }
            let mut batch = self.remove_edges_at(node_id, Some(ports[j]));
            let ghost bseq = batch@;
            proof {
                let hit = edges_hitting(cur, k, Some(p));
                assert forall|c: int| 0 <= c < bseq.len() implies first_port(edges[(#[trigger] bseq[c]).spec_key()], k, pseq) == j by {
                    let e = bseq[c].spec_key();
                    assert(hit.contains(e));
                    assert forall|i: int| 0 <= i < j implies !touches_port(edges[e], k, #[trigger] pseq[i]) by {
                        assert(!touches_first_ports(edges[e], k, pseq, j as int));
                    }
                    lemma_first_port(edges[e], k, pseq, j as int);
                }
                assert(self.spec_edges() =~= edges_off_ports(edges, k, pseq, j + 1)) by {
                    assert forall|e: u64| #[trigger] edges.dom().contains(e) implies
                        (touches_first_ports(edges[e], k, pseq, j + 1) == (touches_first_ports(edges[e], k, pseq, j as int) || touches_port(edges[e], k, p))) by {
                        if touches_first_ports(edges[e], k, pseq, j + 1) {
                            let i = choose|i: int| 0 <= i < j + 1 && touches_port(edges[e], k, #[trigger] pseq[i]);
                        }
                        if touches_port(edges[e], k, p) {
                            assert(touches_port(edges[e], k, pseq[j as int]));
                        }
                        if touches_first_ports(edges[e], k, pseq, j as int) {
                            let i = choose|i: int| 0 <= i < j && touches_port(edges[e], k, #[trigger] pseq[i]);
                            assert(touches_port(edges[e], k, pseq[i]));
                        }
                    }
                }
            }
            ids.append(&mut batch);
            proof {
                let newset = Set::new(|e: u64| edges.dom().contains(e) && touches_first_ports(edges[e], k, pseq, j + 1));
                let oldset = Set::new(|e: u64| edges.dom().contains(e) && touches_first_ports(edges[e], k, pseq, j as int));
                let hit = edges_hitting(cur, k, Some(p));
                assert(ids@ == ids0 + bseq);
                assert forall|a: int| 0 <= a < ids@.len() implies first_port(edges[(#[trigger] ids@[a]).spec_key()], k, pseq) < j + 1 by {
                    if a >= ids0.len() {
                        assert(ids@[a] == bseq[a - ids0.len()]);
                    } else {
                        assert(ids@[a] == ids0[a]);
                    }
                }
                assert forall|a: int, b: int| 0 <= a < b < ids@.len() implies (#[trigger] ids@[a]) != (#[trigger] ids@[b]) by {
                    if b < ids0.len() {
                        assert(ids@[a] == ids0[a] && ids@[b] == ids0[b]);
                    } else if a >= ids0.len() {
                        assert(ids@[a] == bseq[a - ids0.len()] && ids@[b] == bseq[b - ids0.len()]);
                    } else {
                        assert(ids@[a] == ids0[a] && ids@[b] == bseq[b - ids0.len()]);
                        assert(first_port(edges[ids0[a].spec_key()], k, pseq) < j);
                        assert(first_port(edges[bseq[b - ids0.len()].spec_key()], k, pseq) == j);
                    }
                }
                assert forall|a: int| 0 <= a < ids@.len() implies newset.contains((#[trigger] ids@[a]).spec_key()) by {
                    if a >= ids0.len() {
                        let e = bseq[a - ids0.len()].spec_key();
                        assert(ids@[a] == bseq[a - ids0.len()]);
                        assert(hit.contains(e));
                        assert(touches_port(edges[e], k, pseq[j as int]));
                    } else {
                        assert(ids@[a] == ids0[a]);
                        let e = ids0[a].spec_key();
                        assert(oldset.contains(e));
                        let i = choose|i: int| 0 <= i < j && touches_port(edges[e], k, #[trigger] pseq[i]);
                        assert(touches_port(edges[e], k, pseq[i]));
                    }
                }
                assert forall|e: u64| #[trigger] newset.contains(e) implies exists|a: int| 0 <= a < ids@.len() && (#[trigger] ids@[a]).spec_key() == e by {
                    if touches_first_ports(edges[e], k, pseq, j as int) {
                        assert(oldset.contains(e));
                        let a = choose|a: int| 0 <= a < ids0.len() && (#[trigger] ids0[a]).spec_key() == e;
                        assert(ids@[a] == ids0[a]);
                    } else {
                        let i = choose|i: int| 0 <= i < j + 1 && touches_port(edges[e], k, #[trigger] pseq[i]);
                        if i < j {
                            assert(touches_first_ports(edges[e], k, pseq, j as int));
                        }
                        assert(cur.dom().contains(e));
                        assert(hit.contains(e));
                        let c = choose|c: int| 0 <= c < bseq.len() && (#[trigger] bseq[c]).spec_key() == e;
                        assert(ids@[ids0.len() + c] == bseq[c]);
                    }
                }
                assert(removal_ordered(ids@, edges, k, pseq)) by {
                    assert forall|a: int, b: int| 0 <= a < b < ids@.len() implies ({
                        let fa = first_port(edges[(#[trigger] ids@[a]).spec_key()], k, pseq);
                        let fb = first_port(edges[(#[trigger] ids@[b]).spec_key()], k, pseq);
                        fa < fb || (fa == fb && slot_index(ids@[a].spec_key()) < slot_index(ids@[b].spec_key()))
                    }) by {
                        if b < ids0.len() {
                            assert(ids@[a] == ids0[a] && ids@[b] == ids0[b]);
                        } else if a >= ids0.len() {
                            assert(ids@[a] == bseq[a - ids0.len()] && ids@[b] == bseq[b - ids0.len()]);
                        } else {
                            assert(ids@[a] == ids0[a] && ids@[b] == bseq[b - ids0.len()]);
                        }
                    }
                }
            }
            j = j + 1;
        }
        proof {
            let kept = self.spec_edges();
            assert forall|e: u64| #[trigger] edges.dom().contains(e) implies touches_first_ports(edges[e], k, pseq, pseq.len() as int)
                == touches_node(edges[e], k) by {
                lemma_node_ports_cover(nodes, edges, PortType::spec_count(), k, e);
            }
            assert(kept =~= edges_apart(edges, k, None));
            assert(Set::new(|e: u64| edges.dom().contains(e) && touches_first_ports(edges[e], k, pseq, pseq.len() as int))
                =~= edges_hitting(edges, k, None));
            vstd::set_lib::lemma_set_subset_finite(edges.dom(), kept.dom());
            lemma_drop_edges_wf(nodes, edges, PortType::spec_count(), kept);
            let nn = self.spec_nodes();
            assert forall|e: u64| #[trigger] kept.dom().contains(e) implies edge_attached(nn, kept[e]) by {
                assert(edge_attached(nodes, kept[e]));
            }
        }
        self.needs_compile = true;
        Ok(ids)
    }
}

/// The identifiers of a node's ports: its inputs, then its outputs.
pub open spec fn node_ports(n: Node<usize>) -> Seq<PortID> {
    n.inputs@.map_values(|q: Port<usize>| q.id) + n.outputs@.map_values(|q: Port<usize>| q.id)
}

/// Lists the identifiers of a node's ports: its inputs, then its outputs.
fn port_ids(n: &Node<usize>) -> (r: Vec<PortID>)
    ensures
        r@ == node_ports(*n),
{
    let mut r: Vec<PortID> = Vec::new();
    let mut i: usize = 0;
    while i < n.inputs.len()
        invariant
            i <= n.inputs@.len(),
            r@ == n.inputs@.take(i as int).map_values(|q: Port<usize>| q.id),
        decreases n.inputs@.len() - i,
    {
        r.push(n.inputs[i].id);
        i = i + 1;
        assert(r@ =~= n.inputs@.take(i as int).map_values(|q: Port<usize>| q.id));
    }
    let mut i: usize = 0;
    assert(n.inputs@.take(n.inputs@.len() as int) =~= n.inputs@);
    while i < n.outputs.len()
        invariant
            i <= n.outputs@.len(),
            r@ == n.inputs@.map_values(|q: Port<usize>| q.id) + n.outputs@.take(i as int).map_values(|q: Port<usize>| q.id),
        decreases n.outputs@.len() - i,
    {
        r.push(n.outputs[i].id);
        i = i + 1;
        assert(r@ =~= n.inputs@.map_values(|q: Port<usize>| q.id) + n.outputs@.take(i as int).map_values(|q: Port<usize>| q.id));
    }
    assert(n.outputs@.take(n.outputs@.len() as int) =~= n.outputs@);
    r
}

/// Edge `e` uses one of the first `count` ports of `ports` at node `node`.
pub open spec fn touches_first_ports(e: Edge, node: u64, ports: Seq<PortID>, count: int) -> bool {
    exists|i: int| 0 <= i < count && touches_port(e, node, #[trigger] ports[i])
}

/// The edges that use none of the first `count` ports of `ports` at node
/// `node`.
pub open spec fn edges_off_ports(edges: Map<u64, Edge>, node: u64, ports: Seq<PortID>, count: int) -> Map<u64, Edge> {
    Map::new(|k: u64| edges.dom().contains(k) && !touches_first_ports(edges[k], node, ports, count), |k: u64| edges[k])
}

/// Position of the first of `ports` that edge `e` uses at node `node`
/// (meaningful when it uses one).
pub open spec fn first_port(e: Edge, node: u64, ports: Seq<PortID>) -> int {
    choose|j: int|
        0 <= j < ports.len() && touches_port(e, node, ports[j]) && forall|i: int| 0 <= i < j ==> !touches_port(e, node, #[trigger] ports[i])
}

/// Identifiers in the order that removing edges port by port gives: by the
/// first of `ports` each edge uses, then by slot.
pub open spec fn removal_ordered(ids: Seq<EdgeID>, edges: Map<u64, Edge>, node: u64, ports: Seq<PortID>) -> bool {
    forall|a: int, b: int|
        0 <= a < b < ids.len() ==> {
            let fa = first_port(edges[(#[trigger] ids[a]).spec_key()], node, ports);
            let fb = first_port(edges[(#[trigger] ids[b]).spec_key()], node, ports);
            fa < fb || (fa == fb && slot_index(ids[a].spec_key()) < slot_index(ids[b].spec_key()))
        }
}

/// The first port an edge uses is the one at `j` when it uses that one and
/// none before.
proof fn lemma_first_port(e: Edge, node: u64, ports: Seq<PortID>, j: int)
    requires
        0 <= j < ports.len(),
        touches_port(e, node, ports[j]),
        forall|i: int| 0 <= i < j ==> !touches_port(e, node, #[trigger] ports[i]),
    ensures
        first_port(e, node, ports) == j,
{
    let c = first_port(e, node, ports);
    if c < j {
        assert(!touches_port(e, node, ports[c]));
    } else if c > j {
        assert(!touches_port(e, node, ports[j]));
    }
}

/// In a well-formed graph, an edge starts or ends at a node exactly when it
/// uses one of that node's ports.
proof fn lemma_node_ports_cover(nodes: Map<u64, Node<usize>>, edges: Map<u64, Edge>, count: nat, k: u64, e: u64)
    requires
        graph_wf(nodes, edges, count),
        nodes.dom().contains(k),
        edges.dom().contains(e),
    ensures
        touches_first_ports(edges[e], k, node_ports(nodes[k]), node_ports(nodes[k]).len() as int) == touches_node(edges[e], k),
{
    let ed = edges[e];
    let ps = node_ports(nodes[k]);
    let ins = nodes[k].inputs@;
    let outs = nodes[k].outputs@;
    assert(edge_attached(nodes, ed));
    if touches_first_ports(ed, k, ps, ps.len() as int) {
        let i = choose|i: int| 0 <= i < ps.len() && touches_port(ed, k, #[trigger] ps[i]);
    }
    if ed.src_node.spec_key() == k {
        let x = choose|x: int| 0 <= x < outs.len() && (#[trigger] outs[x]).id == ed.src_port;
        assert(ps[ins.len() + x] == outs[x].id);
        assert(touches_port(ed, k, ps[ins.len() + x]));
    } else if ed.dst_node.spec_key() == k {
        let x = choose|x: int| 0 <= x < ins.len() && (#[trigger] ins[x]).id == ed.dst_port;
        assert(ps[x] == ins[x].id);
        assert(touches_port(ed, k, ps[x]));
    }
}

/// Removing nodes or edges never creates a cycle: a graph whose nodes and
/// edges are among those of an acyclic graph is acyclic.
pub proof fn lemma_subgraph_acyclic(
    nodes: Set<u64>,
    edges: Map<u64, Edge>,
    sub_nodes: Set<u64>,
    sub_edges: Map<u64, Edge>,
)
    requires
        !has_cycle(nodes, edges),
        sub_nodes.subset_of(nodes),
        sub_edges.dom().subset_of(edges.dom()),
        forall|k: u64| #[trigger] sub_edges.dom().contains(k) ==> sub_edges[k] == edges[k],
    ensures
        !has_cycle(sub_nodes, sub_edges),
{
    if has_cycle(sub_nodes, sub_edges) {
        let s = choose|s: Set<u64>|
            #![trigger closed_under_predecessors(sub_edges, s)]
            s.subset_of(sub_nodes) && (exists|v: u64| s.contains(v)) && closed_under_predecessors(sub_edges, s);
        assert forall|v: u64| #[trigger] s.contains(v) implies has_incoming_from(edges, v, s) by {
            assert(has_incoming_from(sub_edges, v, s));
            let k = choose|k: u64|
                #[trigger] sub_edges.dom().contains(k) && sub_edges[k].dst_node.spec_key() == v && s.contains(
                    sub_edges[k].src_node.spec_key(),
                );
            assert(edges.dom().contains(k));
        }
        assert(closed_under_predecessors(edges, s));
        assert(has_cycle(nodes, edges));
    }
}

/// Adding nodes, or ports, never creates a cycle: a cycle only passes
/// through nodes that edges lead to, which are nodes of the graph.
pub proof fn lemma_more_nodes_acyclic(nodes: Set<u64>, edges: Map<u64, Edge>, more_nodes: Set<u64>)
    requires
        !has_cycle(nodes, edges),
        nodes.subset_of(more_nodes),
        forall|k: u64| #[trigger] edges.dom().contains(k) ==> nodes.contains(edges[k].dst_node.spec_key()),
    ensures
        !has_cycle(more_nodes, edges),
{
    if has_cycle(more_nodes, edges) {
        let s = choose|s: Set<u64>|
            #![trigger closed_under_predecessors(edges, s)]
            s.subset_of(more_nodes) && (exists|v: u64| s.contains(v)) && closed_under_predecessors(edges, s);
        assert forall|v: u64| s.contains(v) implies nodes.contains(v) by {
            assert(has_incoming_from(edges, v, s));
            let k = choose|k: u64|
                #[trigger] edges.dom().contains(k) && edges[k].dst_node.spec_key() == v && s.contains(
                    edges[k].src_node.spec_key(),
                );
        }
        assert(s.subset_of(nodes));
        assert(has_cycle(nodes, edges));
    }
}

/// Removing an edge just added gives back the edges from before.
pub proof fn lemma_remove_added_edge(edges: Map<u64, Edge>, k: u64, e: Edge)
    requires
        !edges.dom().contains(k),
    ensures
        edges.insert(k, e).remove(k) == edges,
{
    assert(edges.insert(k, e).remove(k) =~= edges);
}

/// Removing a port just added gives back the ports from before: the new
/// port is found at the end of the list, and removing it there restores the
/// list.
pub proof fn lemma_remove_added_port(ports: Seq<Port<usize>>, p: Port<usize>)
    requires
        !has_port(ports, p.id),
    ensures
        has_port(ports.push(p), p.id),
        port_pos(ports.push(p), p.id) == ports.len(),
        ports.push(p).remove(ports.len() as int) == ports,
{
    let q = ports.push(p);
    assert(q[ports.len() as int] == p);
    assert forall|j: int| 0 <= j < ports.len() implies (#[trigger] q[j]).id != p.id by {
        assert(q[j] == ports[j]);
        if ports[j].id == p.id {
            assert(has_port(ports, p.id));
        }
    }
    lemma_port_pos(q, p.id, ports.len() as int);
    assert(q.remove(ports.len() as int) =~= ports);
}

} // verus!
