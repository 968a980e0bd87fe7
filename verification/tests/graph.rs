use clogbox::graph::helper::AudioGraphHelper;
use clogbox::graph::ir::{float_bits_equal, AddEdgeError, AddPortError, NodeID, PortID, RemovePortError};
use clogbox::graph::SlotType;

fn two_connectable_nodes(g: &mut AudioGraphHelper<SlotType>) -> (NodeID, NodeID) {
    let a = g.add_node(0);
    let b = g.add_node(0);
    g.add_port(a, PortID(0), SlotType::Audio, false).unwrap();
    g.add_port(b, PortID(1), SlotType::Audio, true).unwrap();
    (a, b)
}

#[test]
fn new_graph_is_empty() {
    let g: AudioGraphHelper<SlotType> = AudioGraphHelper::new();
    assert!(g.nodes().is_empty());
    assert!(g.edges().is_empty());
    assert!(!g.needs_compile());
    assert!(!g.cycle_detected());
}

#[test]
fn nodes_and_ports() {
    let mut g: AudioGraphHelper<SlotType> = AudioGraphHelper::new();
    let a = g.add_node(7);
    assert!(g.needs_compile());
    g.add_port(a, PortID(3), SlotType::Note, true).unwrap();
    g.add_port(a, PortID(4), SlotType::Control, false).unwrap();
    let n = g.node(a).unwrap();
    assert_eq!(n.id, a);
    assert_eq!(n.latency, 7);
    assert_eq!(n.inputs.len(), 1);
    assert_eq!(n.inputs[0].id, PortID(3));
    assert_eq!(n.inputs[0].port_type, SlotType::Note);
    assert_eq!(n.outputs[0].port_type, SlotType::Control);
    assert_eq!(g.nodes().len(), 1);
}

#[test]
fn adding_an_existing_port_fails() {
    let mut g: AudioGraphHelper<SlotType> = AudioGraphHelper::new();
    let a = g.add_node(0);
    g.add_port(a, PortID(1), SlotType::Audio, true).unwrap();
    let r = g.add_port(a, PortID(1), SlotType::Audio, false);
    assert!(matches!(r, Err(AddPortError::PortAlreadyExists(n, PortID(1))) if n == a));
    assert!(g.node(a).unwrap().outputs.is_empty());
}

#[test]
fn ports_on_a_missing_node_fail() {
    let mut g: AudioGraphHelper<SlotType> = AudioGraphHelper::new();
    let a = g.add_node(0);
    g.remove_node(a).unwrap();
    assert!(g.node(a).is_none());
    assert!(matches!(g.add_port(a, PortID(0), SlotType::Audio, true), Err(AddPortError::NodeNotFound(n)) if n == a));
    assert!(matches!(g.remove_port(a, PortID(0)), Err(RemovePortError::NodeNotFound(n)) if n == a));
    assert_eq!(g.set_node_latency(a, 1), Err(()));
    assert_eq!(g.remove_node(a), Err(()));
}

#[test]
fn set_node_latency_marks_for_compile_on_change() {
    let mut g: AudioGraphHelper<SlotType> = AudioGraphHelper::new();
    let a = g.add_node(2.5f64.to_bits());
    assert_eq!(g.set_node_latency(a, 4.0f64.to_bits()), Ok(()));
    assert_eq!(f64::from_bits(g.node(a).unwrap().latency), 4.0);
}

#[test]
fn latencies_compare_as_floats() {
    let mut g: AudioGraphHelper<SlotType> = AudioGraphHelper::new();
    let a = g.add_node(0.0f64.to_bits());
    assert_eq!(g.set_node_latency(a, (-0.0f64).to_bits()), Ok(()));
    assert_eq!(g.node(a).unwrap().latency, 0.0f64.to_bits());
    assert_eq!(g.set_node_latency(a, f64::NAN.to_bits()), Ok(()));
    assert!(f64::from_bits(g.node(a).unwrap().latency).is_nan());
    assert_eq!(g.set_node_latency(a, 1.5f64.to_bits()), Ok(()));
    assert_eq!(g.node(a).unwrap().latency, 1.5f64.to_bits());
}

#[test]
fn float_bit_equality() {
    assert!(float_bits_equal(0.0f64.to_bits(), (-0.0f64).to_bits()));
    assert!(!float_bits_equal(f64::NAN.to_bits(), f64::NAN.to_bits()));
    assert!(float_bits_equal(2.0f64.to_bits(), 2.0f64.to_bits()));
    assert!(!float_bits_equal(2.0f64.to_bits(), 3.0f64.to_bits()));
    assert!(float_bits_equal(f64::INFINITY.to_bits(), f64::INFINITY.to_bits()));
}

#[test]
fn add_edge_connects_ports() {
    let mut g: AudioGraphHelper<SlotType> = AudioGraphHelper::new();
    let (a, b) = two_connectable_nodes(&mut g);
    let e = g.add_edge(a, PortID(0), b, PortID(1), true).unwrap();
    let edges = g.edges();
    assert_eq!(edges.len(), 1);
    assert_eq!(edges[0].id, e);
    assert_eq!(edges[0].src_node, a);
    assert_eq!(edges[0].dst_port, PortID(1));
}

#[test]
fn add_edge_errors() {
    let mut g: AudioGraphHelper<SlotType> = AudioGraphHelper::new();
    let (a, b) = two_connectable_nodes(&mut g);
    let gone = g.add_node(0);
    g.remove_node(gone).unwrap();
    assert!(matches!(g.add_edge(gone, PortID(0), b, PortID(1), true), Err(AddEdgeError::SrcNodeNotFound(n)) if n == gone));
    assert!(matches!(g.add_edge(a, PortID(9), b, PortID(1), true), Err(AddEdgeError::SrcPortNotFound(n, PortID(9))) if n == a));
    assert!(matches!(g.add_edge(a, PortID(0), gone, PortID(1), true), Err(AddEdgeError::DstNodeNotFound(n)) if n == gone));
    assert!(matches!(g.add_edge(a, PortID(0), b, PortID(9), true), Err(AddEdgeError::DstPortNotFound(n, PortID(9))) if n == b));
    g.add_port(b, PortID(2), SlotType::Control, true).unwrap();
    assert!(matches!(g.add_edge(a, PortID(0), b, PortID(2), true), Err(AddEdgeError::TypeMismatch { .. })));
    let e = g.add_edge(a, PortID(0), b, PortID(1), true).unwrap();
    assert!(matches!(g.add_edge(a, PortID(0), b, PortID(1), true), Err(AddEdgeError::EdgeAlreadyExists(x)) if x.id == e));
    g.add_port(a, PortID(5), SlotType::Audio, true).unwrap();
    assert!(matches!(g.add_edge(a, PortID(0), a, PortID(5), true), Err(AddEdgeError::CycleDetected)));
    assert_eq!(g.edges().len(), 1);
}

#[test]
fn cycles_are_refused_when_checked() {
    let mut g: AudioGraphHelper<SlotType> = AudioGraphHelper::new();
    let n: Vec<NodeID> = (0..3).map(|_| g.add_node(0)).collect();
    for id in &n {
        g.add_port(*id, PortID(0), SlotType::Audio, true).unwrap();
        g.add_port(*id, PortID(1), SlotType::Audio, false).unwrap();
    }
    g.add_edge(n[0], PortID(1), n[1], PortID(0), true).unwrap();
    g.add_edge(n[1], PortID(1), n[2], PortID(0), true).unwrap();
    assert!(!g.cycle_detected());
    assert!(matches!(g.add_edge(n[2], PortID(1), n[0], PortID(0), true), Err(AddEdgeError::CycleDetected)));
    assert_eq!(g.edges().len(), 2);
    let closing = g.add_edge(n[2], PortID(1), n[0], PortID(0), false).unwrap();
    assert!(g.cycle_detected());
    assert_eq!(g.remove_edge(closing), Ok(()));
    assert!(!g.cycle_detected());
    assert_eq!(g.remove_edge(closing), Err(()));
    let extra = g.add_node(0);
    g.add_port(extra, PortID(0), SlotType::Audio, true).unwrap();
    assert!(!g.cycle_detected());
}

#[test]
fn removing_a_port_removes_its_edges() {
    let mut g: AudioGraphHelper<SlotType> = AudioGraphHelper::new();
    let (a, b) = two_connectable_nodes(&mut g);
    let c = g.add_node(0);
    g.add_port(c, PortID(1), SlotType::Audio, true).unwrap();
    let e1 = g.add_edge(a, PortID(0), b, PortID(1), true).unwrap();
    let e2 = g.add_edge(a, PortID(0), c, PortID(1), true).unwrap();
    let mut removed = g.remove_port(b, PortID(1)).unwrap();
    assert_eq!(removed, vec![e1]);
    assert!(g.node(b).unwrap().inputs.is_empty());
    assert!(matches!(g.remove_port(b, PortID(1)), Err(RemovePortError::PortNotFound(n, PortID(1))) if n == b));
    removed = g.remove_port(a, PortID(0)).unwrap();
    assert_eq!(removed, vec![e2]);
    assert!(g.edges().is_empty());
}

#[test]
fn removing_a_node_removes_its_edges() {
    let mut g: AudioGraphHelper<SlotType> = AudioGraphHelper::new();
    let (a, b) = two_connectable_nodes(&mut g);
    let c = g.add_node(0);
    g.add_port(c, PortID(1), SlotType::Audio, true).unwrap();
    let e1 = g.add_edge(a, PortID(0), b, PortID(1), true).unwrap();
    let e2 = g.add_edge(a, PortID(0), c, PortID(1), true).unwrap();
    let removed = g.remove_node(a).unwrap();
    assert_eq!(removed, vec![e1, e2]);
    assert!(g.edges().is_empty());
    assert_eq!(g.nodes().len(), 2);
}

#[test]
fn port_removed_after_adding_restores_node() {
    let mut g: AudioGraphHelper<SlotType> = AudioGraphHelper::new();
    let a = g.add_node(0);
    g.add_port(a, PortID(0), SlotType::Audio, true).unwrap();
    g.add_port(a, PortID(1), SlotType::Audio, true).unwrap();
    assert_eq!(g.remove_port(a, PortID(1)).unwrap(), vec![]);
    let n = g.node(a).unwrap();
    assert_eq!(n.inputs.len(), 1);
    assert_eq!(n.inputs[0].id, PortID(0));
}
