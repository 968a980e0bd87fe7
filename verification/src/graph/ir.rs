//! Identifiers and records of the audio graph, and the errors that editing
//! it reports.
use vstd::prelude::*;

verus! {

/// The canonical form of a raw key: slot-map keys always carry an odd
/// version, which sets bit 32 of their raw form; any raw value designates
/// the same slot as the value with that bit set.
pub open spec fn key_norm(k: u64) -> u64 {
    if (k / 0x1_0000_0000) % 2 == 1 {
        k
    } else {
        (k + 0x1_0000_0000) as u64
    }
}

/// Canonical raw keys are their own canonical form.
pub open spec fn is_key(k: u64) -> bool {
    key_norm(k) == k
}

/// Whether the 64-bit float with bit pattern `x` is a NaN: all exponent bits
/// set and a non-zero mantissa.
pub open spec fn is_nan_bits(x: u64) -> bool {
    &&& (x & 0x7ff0_0000_0000_0000u64) == 0x7ff0_0000_0000_0000u64
    &&& (x & 0x000f_ffff_ffff_ffffu64) != 0
}

/// Whether the 64-bit floats with bit patterns `a` and `b` compare equal as
/// floats: never when either is a NaN, always when both are zeros (of either
/// sign), and otherwise exactly when the patterns are the same.
pub open spec fn float_bits_eq(a: u64, b: u64) -> bool {
    &&& !is_nan_bits(a)
    &&& !is_nan_bits(b)
    &&& (a == b || ((a & 0x7fff_ffff_ffff_ffffu64) == 0 && (b & 0x7fff_ffff_ffff_ffffu64) == 0))
}

/// Compares the 64-bit floats with bit patterns `a` and `b` as floats.
pub fn float_bits_equal(a: u64, b: u64) -> (r: bool)
    ensures
        r == float_bits_eq(a, b),
{
    let exponent: u64 = 0x7ff0_0000_0000_0000u64;
    let mantissa: u64 = 0x000f_ffff_ffff_ffffu64;
    let magnitude: u64 = 0x7fff_ffff_ffff_ffffu64;
    let a_nan = (a & exponent) == exponent && (a & mantissa) != 0;
    let b_nan = (b & exponent) == exponent && (b & mantissa) != 0;
    !a_nan && !b_nan && (a == b || ((a & magnitude) == 0 && (b & magnitude) == 0))
}

/// Globally unique identifier of a node.
#[derive(Debug, Copy, Clone, PartialEq, Eq, Hash)]
pub struct NodeID(pub(crate) u64);

/// Globally unique identifier of an edge.
#[derive(Debug, Copy, Clone, PartialEq, Eq, Hash)]
pub struct EdgeID(pub(crate) u64);

impl NodeID {
    /// The raw key of this identifier.
    pub closed spec fn spec_key(self) -> u64 {
        self.0
    }

    /// Identifiers are canonical keys.
    #[verifier::type_invariant]
    closed spec fn inv(self) -> bool {
        is_key(self.0)
    }

    /// The raw key of this identifier.
    pub fn key(&self) -> (k: u64)
        ensures
            k == self.spec_key(),
            is_key(k),
    {
        proof {
            use_type_invariant(self);
        }
        self.0
    }

    /// The identifier with a given canonical raw key.
    pub(crate) fn from_key(k: u64) -> (id: Self)
        requires
            is_key(k),
        ensures
            id.spec_key() == k,
    {
        NodeID(k)
    }
}

/// Node identifiers are equal exactly when their keys are.
pub broadcast proof fn lemma_node_id_eq(a: NodeID, b: NodeID)
    ensures
        (#[trigger] a.spec_key() == #[trigger] b.spec_key()) == (a == b),
{
}

/// Edge identifiers are equal exactly when their keys are.
pub broadcast proof fn lemma_edge_id_eq(a: EdgeID, b: EdgeID)
    ensures
        (#[trigger] a.spec_key() == #[trigger] b.spec_key()) == (a == b),
{
}

impl EdgeID {
    /// The raw key of this identifier.
    pub closed spec fn spec_key(self) -> u64 {
        self.0
    }

    /// Identifiers are canonical keys.
    #[verifier::type_invariant]
    closed spec fn inv(self) -> bool {
        is_key(self.0)
    }

    /// The raw key of this identifier.
    pub fn key(&self) -> (k: u64)
        ensures
            k == self.spec_key(),
            is_key(k),
    {
        proof {
            use_type_invariant(self);
        }
        self.0
    }

    /// The identifier with a given canonical raw key.
    pub(crate) fn from_key(k: u64) -> (id: Self)
        requires
            is_key(k),
        ensures
            id.spec_key() == k,
    {
        EdgeID(k)
    }
}

/// Identifier of a port, unique within its node.
#[derive(Debug, Copy, Clone, PartialEq, Eq, Structural, Hash)]
pub struct PortID(pub u32);

/// A point of input or output of a node.
#[derive(Debug, Copy, Clone, PartialEq, Eq)]
pub struct Port<Type> {
    /// Identifier of the port within its node.
    pub id: PortID,
    /// Kind of data the port handles; ports of different kinds do not
    /// connect.
    pub port_type: Type,
}

/// A connection from an output port of one node to an input port of another.
#[derive(Debug, Copy, Clone, PartialEq, Eq, Hash)]
pub struct Edge {
    /// Globally unique identifier of the edge.
    pub id: EdgeID,
    /// Source node.
    pub src_node: NodeID,
    /// Source (output) port.
    pub src_port: PortID,
    /// Destination node.
    pub dst_node: NodeID,
    /// Destination (input) port.
    pub dst_port: PortID,
}

/// A processing node of the graph.
#[derive(Debug, Clone)]
pub struct Node<PortType> {
    /// Globally unique identifier of the node.
    pub id: NodeID,
    /// Input ports.
    pub inputs: Vec<Port<PortType>>,
    /// Output ports.
    pub outputs: Vec<Port<PortType>>,
    /// Bit pattern of the latency (in samples, as a 64-bit float) that the
    /// node adds to data flowing through it.
    pub latency: u64,
}

/// Index of a buffer.
#[derive(Debug, Copy, Clone, PartialEq, Eq, Hash)]
pub struct BufferIdx(pub usize);

/// A buffer assigned to an input or output port.
#[derive(Debug, Copy, Clone, PartialEq, Eq)]
pub struct BufferAssignment<PortType> {
    /// Index of the buffer.
    pub buffer_index: BufferIdx,
    /// Kind of data in the buffer.
    pub type_index: PortType,
    /// Whether the engine clears the buffer before handing it to a module.
    pub should_clear: bool,
    /// The port the buffer is assigned to.
    pub port_id: PortID,
    /// How many times the buffer was used before this assignment.
    pub generation: usize,
}

/// A point where several edges merge into one buffer.
#[derive(Debug, Clone, PartialEq, Eq)]
pub struct InsertedSum<PortType> {
    /// Buffers that are summed.
    pub input_buffers: Vec<BufferAssignment<PortType>>,
    /// Buffer receiving the sum.
    pub output_buffer: BufferAssignment<PortType>,
}

/// Adding a port failed.
#[derive(Debug, Clone, Copy)]
pub enum AddPortError {
    /// The node was not found in the graph.
    NodeNotFound(NodeID),
    /// A port with this identifier already exists on the node.
    PortAlreadyExists(NodeID, PortID),
}

/// Removing a port failed.
#[derive(Debug, Clone, Copy)]
pub enum RemovePortError {
    /// The node was not found in the graph.
    NodeNotFound(NodeID),
    /// The port was not found on the node.
    PortNotFound(NodeID, PortID),
}

/// Adding an edge failed.
#[derive(Debug, Clone)]
pub enum AddEdgeError {
    /// The source node was not found in the graph.
    SrcNodeNotFound(NodeID),
    /// The destination node was not found in the graph.
    DstNodeNotFound(NodeID),
    /// The source node has no output port with this identifier.
    SrcPortNotFound(NodeID, PortID),
    /// The destination node has no input port with this identifier.
    DstPortNotFound(NodeID, PortID),
    /// The source and destination ports are of different kinds.
    TypeMismatch {
        /// Source node.
        src_node_id: NodeID,
        /// Source port.
        src_port: PortID,
        /// Destination node.
        dst_node_id: NodeID,
        /// Destination port.
        dst_port: PortID,
    },
    /// The same connection already exists.
    EdgeAlreadyExists(Edge),
    /// The edge would have created a cycle.
    CycleDetected,
}

/// Compiling the graph into a schedule failed.
#[derive(Debug, Clone, Copy)]
pub enum CompileGraphError {
    /// A cycle was detected in the graph.
    CycleDetected,
    /// An edge refers to a node that does not exist.
    NodeOnEdgeNotFound(Edge, NodeID),
    /// Several nodes share an identifier.
    NodeIDNotUnique(NodeID),
    /// Several edges share an identifier.
    EdgeIDNotUnique(EdgeID),
    /// A port has a kind index out of bounds for the given number of kinds.
    PortTypeIndexOutOfBounds(NodeID, PortID, usize),
}

} // verus!
