//! Compiled schedules and the steps that running one takes.
//!
//! A compiled schedule lists, in order, the nodes to process, the delays
//! inserted for latency compensation, and the sums inserted where several
//! edges feed one port. Running it is a sequence of [`DriverAction`]s:
//! clearing buffers, copying host input and output channels, running node
//! modules and delays, and summing buffers. The actions are decided here;
//! carrying them out (sample arithmetic, module calls) is left to the
//! caller. Deciding them only reads the schedule.
use vstd::prelude::*;
use super::SlotType;
use super::ir::{BufferAssignment, Edge, EdgeID, InsertedSum, NodeID};
use crate::enum_map::EnumMap;

verus! {

broadcast use super::ir::lemma_node_id_eq;

/// A node of the graph with its assigned buffers, placed in the schedule.
#[derive(Debug, Clone)]
pub struct ScheduledNode<PortType> {
    /// Identifier of the node.
    pub id: NodeID,
    /// Bit pattern of the node's latency (a 64-bit float, in samples).
    pub latency: u64,
    /// Buffers assigned to the input ports, in port order.
    pub input_buffers: Vec<BufferAssignment<PortType>>,
    /// Buffers assigned to the output ports, in port order.
    pub output_buffers: Vec<BufferAssignment<PortType>>,
}

/// A delay inserted along an edge to compensate for latency.
#[derive(Debug, Copy, Clone)]
pub struct InsertedDelay<PortType> {
    /// The edge that this delay sits on.
    pub edge: Edge,
    /// Bit pattern of the delay (a 64-bit float, in samples).
    pub delay: u64,
    /// Buffer the delay reads.
    pub input_buffer: BufferAssignment<PortType>,
    /// Buffer the delay writes.
    pub output_buffer: BufferAssignment<PortType>,
}

/// One element of a schedule.
#[derive(Debug, Clone)]
pub enum ScheduleEntry<PortType> {
    /// A node to process.
    Node(ScheduledNode<PortType>),
    /// A delay to apply.
    Delay(InsertedDelay<PortType>),
    /// A sum merging several buffers into one.
    Sum(InsertedSum<PortType>),
}

/// The output of the graph compiler.
pub struct CompiledSchedule<PortType> {
    /// The entries to evaluate, in order.
    pub schedule: Vec<ScheduleEntry<PortType>>,
    /// The delays inserted into the graph.
    pub delays: Vec<InsertedDelay<PortType>>,
    /// The number of buffers to allocate for each port type.
    pub num_buffers: EnumMap<PortType, usize>,
}

/// One step of running a schedule.
#[derive(Debug, Copy, Clone, PartialEq, Eq)]
pub enum DriverAction {
    /// Clear a buffer: fill an audio buffer with zeros, or remove all events.
    Clear(SlotType, usize),
    /// Copy host input channel `input` into audio buffer `buffer`.
    CopyIn { input: usize, buffer: usize },
    /// Copy audio buffer `buffer` into host output channel `output`.
    CopyOut { buffer: usize, output: usize },
    /// Process the module of a node.
    RunNode(NodeID),
    /// Apply the delay of an edge, reading buffer `input` and writing buffer
    /// `output`.
    RunDelay { edge: EdgeID, input: usize, output: usize },
    /// Start a sum: clear buffer `output` of the given slot type.
    ResetSum { slot_type: SlotType, output: usize },
    /// Add buffer `input` into buffer `output`, both of the given slot type.
    AddInto { slot_type: SlotType, input: usize, output: usize },
}

/// The clears that a list of buffer assignments asks for, in order.
pub open spec fn clear_actions(buffers: Seq<BufferAssignment<SlotType>>) -> Seq<DriverAction>
    decreases buffers.len(),
{
    if buffers.len() == 0 {
        Seq::empty()
    } else {
        let last = buffers.last();
        clear_actions(buffers.drop_last()) + if last.should_clear {
            seq![DriverAction::Clear(last.type_index, last.buffer_index.0)]
        } else {
            Seq::empty()
        }
    }
}

/// The host channel that a node is routed to, by the first entry naming it.
pub open spec fn host_channel(routes: Seq<(NodeID, usize)>, id: NodeID) -> Option<usize>
    decreases routes.len(),
{
    if routes.len() == 0 {
        None
    } else if routes[0].0 == id {
        Some(routes[0].1)
    } else {
        host_channel(routes.drop_first(), id)
    }
}

/// A node's host channel is the channel of the first route that names it,
/// wherever that route stands, and there is none exactly when no route
/// names the node.
pub proof fn lemma_host_channel_first_route(routes: Seq<(NodeID, usize)>, id: NodeID)
    ensures
        (host_channel(routes, id) is None) <==> (forall|j: int| 0 <= j < routes.len() ==> (#[trigger] routes[j]).0 != id),
        forall|i: int|
            0 <= i < routes.len() && (#[trigger] routes[i]).0 == id && (forall|j: int| 0 <= j < i ==> (#[trigger] routes[j]).0 != id)
                ==> host_channel(routes, id) == Some(routes[i].1),
    decreases routes.len(),
{
    if routes.len() > 0 {
        let rest = routes.drop_first();
        lemma_host_channel_first_route(rest, id);
        assert forall|j: int| 0 <= j < rest.len() implies #[trigger] rest[j] == routes[j + 1] by {}
        if routes[0].0 != id {
            assert forall|i: int|
                0 <= i < routes.len() && (#[trigger] routes[i]).0 == id && (forall|j: int| 0 <= j < i ==> (#[trigger] routes[j]).0 != id)
                    implies host_channel(routes, id) == Some(routes[i].1) by {
                assert(i > 0);
                assert(rest[i - 1] == routes[i]);
                assert forall|j: int| 0 <= j < i - 1 implies (#[trigger] rest[j]).0 != id by {
                    assert(rest[j] == routes[j + 1]);
                }
            }
            if host_channel(routes, id) is None {
                assert forall|j: int| 0 <= j < routes.len() implies (#[trigger] routes[j]).0 != id by {
                    if j > 0 {
                        assert(rest[j - 1] == routes[j]);
                    }
                }
            }
            if forall|j: int| 0 <= j < routes.len() ==> (#[trigger] routes[j]).0 != id {
                assert forall|j: int| 0 <= j < rest.len() implies (#[trigger] rest[j]).0 != id by {
                    assert(rest[j] == routes[j + 1]);
                }
            }
        } else {
            assert forall|i: int|
                0 <= i < routes.len() && (#[trigger] routes[i]).0 == id && (forall|j: int| 0 <= j < i ==> (#[trigger] routes[j]).0 != id)
                    implies host_channel(routes, id) == Some(routes[i].1) by {
                if i > 0 {
                    assert(routes[0].0 != id);
                }
            }
            assert(routes[0].0 == id);
        }
    }
}

/// The steps that one schedule entry takes, when `input_nodes` routes host
/// input channels to nodes and `output_nodes` routes nodes to host output
/// channels.
///
/// A node first clears the buffers of its inputs, then those of its outputs,
/// that ask for it. An input node then copies its host channel into its
/// first output buffer, an output node copies its first input buffer into
/// its host channel, and any other node is processed. A delay is applied. A
/// sum clears its output buffer and adds each input buffer into it, in
/// order.
pub open spec fn spec_entry_actions(
    entry: ScheduleEntry<SlotType>,
    input_nodes: Seq<(NodeID, usize)>,
    output_nodes: Seq<(NodeID, usize)>,
) -> Seq<DriverAction> {
    match entry {
        ScheduleEntry::Node(node) => clear_actions(node.input_buffers@) + clear_actions(node.output_buffers@)
            + match host_channel(input_nodes, node.id) {
            Some(input) => seq![DriverAction::CopyIn { input, buffer: node.output_buffers@[0].buffer_index.0 }],
            None => match host_channel(output_nodes, node.id) {
                Some(output) => seq![
                    DriverAction::CopyOut { buffer: node.input_buffers@[0].buffer_index.0, output },
                ],
                None => seq![DriverAction::RunNode(node.id)],
            },
        },
        ScheduleEntry::Delay(delay) => seq![
            DriverAction::RunDelay {
                edge: delay.edge.id,
                input: delay.input_buffer.buffer_index.0,
                output: delay.output_buffer.buffer_index.0,
            },
        ],
        ScheduleEntry::Sum(sum) => {
            let slot_type = sum.output_buffer.type_index;
            let output = sum.output_buffer.buffer_index.0;
            seq![DriverAction::ResetSum { slot_type, output }] + Seq::new(
                sum.input_buffers@.len(),
                |i: int| DriverAction::AddInto { slot_type, input: sum.input_buffers@[i].buffer_index.0, output },
            )
        },
    }
}

/// The clears that buffer assignments ask for are, in order, one clear of
/// each assignment that asks for it, of that assignment's buffer.
pub proof fn lemma_clear_actions_are_requested(buffers: Seq<BufferAssignment<SlotType>>)
    ensures
        clear_actions(buffers) == buffers.filter(|b: BufferAssignment<SlotType>| b.should_clear).map_values(
            |b: BufferAssignment<SlotType>| DriverAction::Clear(b.type_index, b.buffer_index.0),
        ),
    decreases buffers.len(),
{
    reveal(Seq::filter);
    if buffers.len() > 0 {
        lemma_clear_actions_are_requested(buffers.drop_last());
        let f = buffers.filter(|b: BufferAssignment<SlotType>| b.should_clear);
        let g = buffers.drop_last().filter(|b: BufferAssignment<SlotType>| b.should_clear);
        let m = |b: BufferAssignment<SlotType>| DriverAction::Clear(b.type_index, b.buffer_index.0);
        if buffers.last().should_clear {
            assert(f == g.push(buffers.last()));
            assert(f.map_values(m) =~= g.map_values(m).push(m(buffers.last())));
        } else {
            assert(f == g);
        }
        assert(clear_actions(buffers) =~= f.map_values(m));
    }
}

/// The steps of a node entry: the clears its input buffers ask for, then
/// those its output buffers ask for, then one last step. A node that the
/// first of the host input routes naming it feeds from channel `c` copies
/// channel `c` into its first output buffer; a node that no input route
/// names and the first output route naming it sends to channel `c` copies
/// its first input buffer into channel `c`; a node that no route names is
/// processed.
pub proof fn lemma_node_entry_steps(
    node: ScheduledNode<SlotType>,
    input_nodes: Seq<(NodeID, usize)>,
    output_nodes: Seq<(NodeID, usize)>,
)
    ensures
        ({
            let acts = spec_entry_actions(ScheduleEntry::Node(node), input_nodes, output_nodes);
            let clears = clear_actions(node.input_buffers@) + clear_actions(node.output_buffers@);
            &&& acts.len() == clears.len() + 1
            &&& acts.take(clears.len() as int) == clears
            &&& forall|i: int|
                0 <= i < input_nodes.len() && (#[trigger] input_nodes[i]).0 == node.id && (forall|j: int|
                    0 <= j < i ==> (#[trigger] input_nodes[j]).0 != node.id) ==> acts.last() == DriverAction::CopyIn {
                    input: input_nodes[i].1,
                    buffer: node.output_buffers@[0].buffer_index.0,
                }
            &&& (forall|j: int| 0 <= j < input_nodes.len() ==> (#[trigger] input_nodes[j]).0 != node.id) ==> forall|i: int|
                0 <= i < output_nodes.len() && (#[trigger] output_nodes[i]).0 == node.id && (forall|j: int|
                    0 <= j < i ==> (#[trigger] output_nodes[j]).0 != node.id) ==> acts.last() == DriverAction::CopyOut {
                    buffer: node.input_buffers@[0].buffer_index.0,
                    output: output_nodes[i].1,
                }
            &&& ((forall|j: int| 0 <= j < input_nodes.len() ==> (#[trigger] input_nodes[j]).0 != node.id) && (forall|j: int|
                0 <= j < output_nodes.len() ==> (#[trigger] output_nodes[j]).0 != node.id)) ==> acts.last()
                == DriverAction::RunNode(node.id)
        }),
{
    lemma_host_channel_first_route(input_nodes, node.id);
    lemma_host_channel_first_route(output_nodes, node.id);
    let acts = spec_entry_actions(ScheduleEntry::Node(node), input_nodes, output_nodes);
    let clears = clear_actions(node.input_buffers@) + clear_actions(node.output_buffers@);
    assert(acts.take(clears.len() as int) =~= clears);
}

/// The steps of a delay entry: applying the delay of its edge, from its
/// input buffer to its output buffer.
pub proof fn lemma_delay_entry_steps(
    delay: InsertedDelay<SlotType>,
    input_nodes: Seq<(NodeID, usize)>,
    output_nodes: Seq<(NodeID, usize)>,
)
    ensures
        spec_entry_actions(ScheduleEntry::Delay(delay), input_nodes, output_nodes) == seq![
            DriverAction::RunDelay {
                edge: delay.edge.id,
                input: delay.input_buffer.buffer_index.0,
                output: delay.output_buffer.buffer_index.0,
            },
        ],
{
}

/// The steps of a sum entry: clearing the output buffer, then adding each
/// input buffer into it, in order, all of the output's slot type.
pub proof fn lemma_sum_entry_steps(
    sum: InsertedSum<SlotType>,
    input_nodes: Seq<(NodeID, usize)>,
    output_nodes: Seq<(NodeID, usize)>,
)
    ensures
        ({
            let acts = spec_entry_actions(ScheduleEntry::Sum(sum), input_nodes, output_nodes);
            let t = sum.output_buffer.type_index;
            let out = sum.output_buffer.buffer_index.0;
            &&& acts.len() == sum.input_buffers@.len() + 1
            &&& acts[0] == DriverAction::ResetSum { slot_type: t, output: out }
            &&& forall|i: int|
                0 <= i < sum.input_buffers@.len() ==> acts[i + 1] == DriverAction::AddInto {
                    slot_type: t,
                    input: (#[trigger] sum.input_buffers@[i]).buffer_index.0,
                    output: out,
                }
        }),
{
}

/// Whether an entry can be run: an input node has an output buffer to copy
/// into, and an output node has an input buffer to copy from.
pub open spec fn entry_runnable(
    entry: ScheduleEntry<SlotType>,
    input_nodes: Seq<(NodeID, usize)>,
    output_nodes: Seq<(NodeID, usize)>,
) -> bool {
    match entry {
        ScheduleEntry::Node(node) => {
            &&& host_channel(input_nodes, node.id) is Some ==> node.output_buffers@.len() > 0
            &&& host_channel(input_nodes, node.id) is None && host_channel(output_nodes, node.id) is Some
                ==> node.input_buffers@.len() > 0
        },
        _ => true,
    }
}

/// Appends the clears that a list of buffer assignments asks for.
fn push_clears(actions: &mut Vec<DriverAction>, buffers: &Vec<BufferAssignment<SlotType>>)
    ensures
        final(actions)@ == old(actions)@ + clear_actions(buffers@),
{
    let mut i: usize = 0;
    while i < buffers.len()
        invariant
            i <= buffers@.len(),
            actions@ == old(actions)@ + clear_actions(buffers@.take(i as int)),
        decreases buffers@.len() - i,
    {
        let b = buffers[i];
        proof {
            assert(buffers@.take(i + 1).drop_last() =~= buffers@.take(i as int));
            assert(buffers@.take(i + 1).last() == b);
        }
        if b.should_clear {
            actions.push(DriverAction::Clear(b.type_index, b.buffer_index.0));
        }
        i = i + 1;
        proof {
            assert(actions@ =~= old(actions)@ + clear_actions(buffers@.take(i as int)));
        }
    }
    proof {
        assert(buffers@.take(i as int) =~= buffers@);
    }
}

/// The host channel that node `id` is routed to, if any.
pub fn find_host_channel(routes: &Vec<(NodeID, usize)>, id: NodeID) -> (r: Option<usize>)
    ensures
        r == host_channel(routes@, id),
{
    let mut i: usize = 0;
    proof {
        assert(routes@.skip(0) =~= routes@);
    }
    while i < routes.len()
        invariant
            i <= routes@.len(),
            host_channel(routes@, id) == host_channel(routes@.skip(i as int), id),
        decreases routes@.len() - i,
    {
        proof {
            assert(routes@.skip(i as int).drop_first() =~= routes@.skip(i + 1));
        }
        if routes[i].0.key() == id.key() {
            return Some(routes[i].1);
        }
        i = i + 1;
    }
    None
}

/// Lists the steps that one schedule entry takes; see
/// [`spec_entry_actions`].
pub fn entry_actions(
    entry: &ScheduleEntry<SlotType>,
    input_nodes: &Vec<(NodeID, usize)>,
    output_nodes: &Vec<(NodeID, usize)>,
) -> (actions: Vec<DriverAction>)
    requires
        entry_runnable(*entry, input_nodes@, output_nodes@),
    ensures
        actions@ == spec_entry_actions(*entry, input_nodes@, output_nodes@),
{
    let mut actions: Vec<DriverAction> = Vec::new();
    match entry {
        ScheduleEntry::Node(node) => {
            push_clears(&mut actions, &node.input_buffers);
            push_clears(&mut actions, &node.output_buffers);
            match find_host_channel(input_nodes, node.id) {
                Some(input) => {
                    actions.push(DriverAction::CopyIn { input, buffer: node.output_buffers[0].buffer_index.0 });
                },
                None => match find_host_channel(output_nodes, node.id) {
                    Some(output) => {
                        actions.push(DriverAction::CopyOut { buffer: node.input_buffers[0].buffer_index.0, output });
                    },
                    None => {
                        actions.push(DriverAction::RunNode(node.id));
                    },
                },
            }
        },
        ScheduleEntry::Delay(delay) => {
            actions.push(
                DriverAction::RunDelay {
                    edge: delay.edge.id,
                    input: delay.input_buffer.buffer_index.0,
                    output: delay.output_buffer.buffer_index.0,
                },
            );
        },
        ScheduleEntry::Sum(sum) => {
            let slot_type = sum.output_buffer.type_index;
            let output = sum.output_buffer.buffer_index.0;
            actions.push(DriverAction::ResetSum { slot_type, output });
            let mut i: usize = 0;
            while i < sum.input_buffers.len()
                invariant
                    i <= sum.input_buffers@.len(),
                    actions@ == seq![DriverAction::ResetSum { slot_type, output }] + Seq::new(
                        i as nat,
                        |j: int| DriverAction::AddInto { slot_type, input: sum.input_buffers@[j].buffer_index.0, output },
                    ),
                decreases sum.input_buffers@.len() - i,
            {
                actions.push(DriverAction::AddInto { slot_type, input: sum.input_buffers[i].buffer_index.0, output });
                i = i + 1;
                proof {
                    assert(actions@ =~= seq![DriverAction::ResetSum { slot_type, output }] + Seq::new(
                        i as nat,
                        |j: int| DriverAction::AddInto { slot_type, input: sum.input_buffers@[j].buffer_index.0, output },
                    ));
                }
            }
        },
    }
    proof {
        assert(actions@ =~= spec_entry_actions(*entry, input_nodes@, output_nodes@));
    }
    actions
}

/// The steps that running a whole schedule takes: those of its entries, in
/// order.
pub open spec fn spec_schedule_actions(
    schedule: Seq<ScheduleEntry<SlotType>>,
    input_nodes: Seq<(NodeID, usize)>,
    output_nodes: Seq<(NodeID, usize)>,
) -> Seq<DriverAction> {
    Seq::new(schedule.len(), |i: int| spec_entry_actions(schedule[i], input_nodes, output_nodes)).flatten()
}

/// Lists the steps that running a compiled schedule takes; see
/// [`spec_schedule_actions`]. The schedule is only read, so it can be run
/// again.
pub fn schedule_actions(
    schedule: &CompiledSchedule<SlotType>,
    input_nodes: &Vec<(NodeID, usize)>,
    output_nodes: &Vec<(NodeID, usize)>,
) -> (actions: Vec<DriverAction>)
    requires
        forall|i: int|
            0 <= i < schedule.schedule@.len() ==> entry_runnable(
                #[trigger] schedule.schedule@[i],
                input_nodes@,
                output_nodes@,
            ),
    ensures
        actions@ == spec_schedule_actions(schedule.schedule@, input_nodes@, output_nodes@),
{
    let ghost entries = schedule.schedule@;
    let ghost rows = Seq::new(entries.len(), |i: int| spec_entry_actions(entries[i], input_nodes@, output_nodes@));
    let mut actions: Vec<DriverAction> = Vec::new();
    let mut i: usize = 0;
    while i < schedule.schedule.len()
        invariant
            i <= entries.len(),
            entries == schedule.schedule@,
            forall|j: int| 0 <= j < entries.len() ==> entry_runnable(#[trigger] entries[j], input_nodes@, output_nodes@),
            rows == Seq::new(entries.len(), |k: int| spec_entry_actions(entries[k], input_nodes@, output_nodes@)),
            actions@ == rows.take(i as int).flatten(),
        decreases entries.len() - i,
    {
        let mut step = entry_actions(&schedule.schedule[i], input_nodes, output_nodes);
        proof {
            assert(rows.take(i + 1) =~= rows.take(i as int).push(rows[i as int]));
            rows.take(i as int).lemma_flatten_push(rows[i as int]);
        }
        actions.append(&mut step);
        i = i + 1;
    }
    proof {
        assert(rows.take(i as int) =~= rows);
    }
    actions
}

/// The buffer that slot `id` of the given type reads or writes, among a
/// node's buffer assignments: the assignment at position `id`, if there is
/// one and it is of that type.
pub open spec fn spec_slot_buffer(buffers: Seq<BufferAssignment<SlotType>>, slot_type: SlotType, id: usize) -> Option<usize> {
    if id < buffers.len() && buffers[id as int].type_index == slot_type {
        Some(buffers[id as int].buffer_index.0)
    } else {
        None
    }
}

/// Finds the buffer that slot `id` of the given type uses among a node's
/// buffer assignments; see [`spec_slot_buffer`].
pub fn slot_buffer(buffers: &Vec<BufferAssignment<SlotType>>, slot_type: SlotType, id: usize) -> (r: Option<usize>)
    ensures
        r == spec_slot_buffer(buffers@, slot_type, id),
{
    if id < buffers.len() && buffers[id].type_index.connects_to(slot_type) {
        Some(buffers[id].buffer_index.0)
    } else {
        None
    }
}

} // verus!
