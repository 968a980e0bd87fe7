use clogbox::enum_map::EnumMap;
use clogbox::graph::helper::AudioGraphHelper;
use clogbox::graph::ir::{BufferAssignment, BufferIdx, Edge, InsertedSum, NodeID, PortID};
use clogbox::graph::schedule::{
    entry_actions, schedule_actions, slot_buffer, CompiledSchedule, DriverAction, InsertedDelay, ScheduleEntry,
    ScheduledNode,
};
use clogbox::graph::SlotType;

fn assign(buffer: usize, slot_type: SlotType, clear: bool) -> BufferAssignment<SlotType> {
    BufferAssignment { buffer_index: BufferIdx(buffer), type_index: slot_type, should_clear: clear, port_id: PortID(0), generation: 0 }
}

fn three_nodes() -> (NodeID, NodeID, NodeID, Edge) {
    let mut g: AudioGraphHelper<SlotType> = AudioGraphHelper::new();
    let a = g.add_node(0);
    let b = g.add_node(0);
    let c = g.add_node(0);
    g.add_port(a, PortID(0), SlotType::Audio, false).unwrap();
    g.add_port(b, PortID(1), SlotType::Audio, true).unwrap();
    g.add_edge(a, PortID(0), b, PortID(1), true).unwrap();
    let e = g.edges()[0];
    (a, b, c, e)
}

#[test]
fn node_entries_clear_then_route_or_run() {
    let (a, b, c, _) = three_nodes();
    let routes_in = vec![(a, 3)];
    let routes_out = vec![(b, 1)];
    let input = ScheduleEntry::Node(ScheduledNode {
        id: a,
        latency: 0,
        input_buffers: vec![],
        output_buffers: vec![assign(4, SlotType::Audio, true), assign(5, SlotType::Control, false)],
    });
    assert_eq!(
        entry_actions(&input, &routes_in, &routes_out),
        vec![DriverAction::Clear(SlotType::Audio, 4), DriverAction::CopyIn { input: 3, buffer: 4 }]
    );
    let output = ScheduleEntry::Node(ScheduledNode {
        id: b,
        latency: 0,
        input_buffers: vec![assign(4, SlotType::Audio, false)],
        output_buffers: vec![],
    });
    assert_eq!(entry_actions(&output, &routes_in, &routes_out), vec![DriverAction::CopyOut { buffer: 4, output: 1 }]);
    let inner = ScheduleEntry::Node(ScheduledNode {
        id: c,
        latency: 0,
        input_buffers: vec![assign(1, SlotType::Note, true)],
        output_buffers: vec![assign(2, SlotType::Audio, true)],
    });
    assert_eq!(
        entry_actions(&inner, &routes_in, &routes_out),
        vec![DriverAction::Clear(SlotType::Note, 1), DriverAction::Clear(SlotType::Audio, 2), DriverAction::RunNode(c)]
    );
}

#[test]
fn delay_and_sum_entries() {
    let (_, _, _, e) = three_nodes();
    let delay = ScheduleEntry::Delay(InsertedDelay {
        edge: e,
        delay: 2.0f64.to_bits(),
        input_buffer: assign(0, SlotType::Audio, false),
        output_buffer: assign(1, SlotType::Audio, false),
    });
    assert_eq!(entry_actions(&delay, &vec![], &vec![]), vec![DriverAction::RunDelay { edge: e.id, input: 0, output: 1 }]);
    let sum = ScheduleEntry::Sum(InsertedSum {
        input_buffers: vec![assign(2, SlotType::Control, false), assign(3, SlotType::Control, false)],
        output_buffer: assign(7, SlotType::Control, false),
    });
    assert_eq!(
        entry_actions(&sum, &vec![], &vec![]),
        vec![
            DriverAction::ResetSum { slot_type: SlotType::Control, output: 7 },
            DriverAction::AddInto { slot_type: SlotType::Control, input: 2, output: 7 },
            DriverAction::AddInto { slot_type: SlotType::Control, input: 3, output: 7 },
        ]
    );
}

#[test]
fn running_a_schedule_concatenates_entries_and_keeps_it() {
    let (a, _, c, _) = three_nodes();
    let schedule = CompiledSchedule {
        schedule: vec![
            ScheduleEntry::Node(ScheduledNode { id: a, latency: 0, input_buffers: vec![], output_buffers: vec![assign(0, SlotType::Audio, false)] }),
            ScheduleEntry::Node(ScheduledNode { id: c, latency: 0, input_buffers: vec![assign(0, SlotType::Audio, false)], output_buffers: vec![] }),
        ],
        delays: vec![],
        num_buffers: EnumMap::from_array(vec![1, 0, 0]),
    };
    let first = schedule_actions(&schedule, &vec![(a, 0)], &vec![]);
    assert_eq!(first, vec![DriverAction::CopyIn { input: 0, buffer: 0 }, DriverAction::RunNode(c)]);
    assert_eq!(schedule_actions(&schedule, &vec![(a, 0)], &vec![]), first);
    assert_eq!(schedule.schedule.len(), 2);
}

#[test]
fn slot_buffers_by_position_and_type() {
    let buffers = vec![assign(4, SlotType::Audio, false), assign(9, SlotType::Control, false)];
    assert_eq!(slot_buffer(&buffers, SlotType::Audio, 0), Some(4));
    assert_eq!(slot_buffer(&buffers, SlotType::Audio, 1), None);
    assert_eq!(slot_buffer(&buffers, SlotType::Control, 1), Some(9));
    assert_eq!(slot_buffer(&buffers, SlotType::Control, 2), None);
}
