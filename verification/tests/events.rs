use clogbox::graph::event::{EventBuffer, TimestampedIteratorExt};
use clogbox::graph::{NoteKey, Timestamped};

fn contents(b: &EventBuffer<u32>) -> Vec<(usize, u32)> {
    b.iter_events().iter().map(|e| (e.sample, *e.value)).collect()
}

#[test]
fn push_keeps_events_sorted() {
    let mut b: EventBuffer<u32> = EventBuffer::new(4);
    assert!(b.is_empty());
    assert_eq!(b.capacity(), 4);
    assert!(b.push(3, 1).is_ok());
    assert!(b.push(1, 5).is_ok());
    assert!(b.push(3, 0).is_ok());
    assert_eq!(contents(&b), vec![(1, 5), (3, 0), (3, 1)]);
    assert_eq!(b.len(), 3);
}

#[test]
fn push_replaces_equal_event() {
    let mut b: EventBuffer<u32> = EventBuffer::new(4);
    b.push(2, 7).unwrap();
    b.push(2, 7).unwrap();
    assert_eq!(contents(&b), vec![(2, 7)]);
}

#[test]
fn push_into_full_buffer_hands_event_back() {
    let mut b: EventBuffer<u32> = EventBuffer::new(2);
    b.push(0, 1).unwrap();
    b.push(1, 1).unwrap();
    assert_eq!(b.push(2, 9), Err(9));
    assert_eq!(contents(&b), vec![(0, 1), (1, 1)]);
    b.clear();
    assert!(b.is_empty());
    assert_eq!(b.capacity(), 2);
    assert!(b.push(2, 9).is_ok());
}

#[test]
fn next_event_finds_first_at_or_after() {
    let mut b: EventBuffer<u32> = EventBuffer::new(8);
    b.push(1, 5).unwrap();
    b.push(3, 0).unwrap();
    b.push(3, 1).unwrap();
    let e = b.next_event(2).unwrap();
    assert_eq!((e.sample, *e.value), (3, 0));
    let e = b.next_event(1).unwrap();
    assert_eq!((e.sample, *e.value), (1, 5));
    assert!(b.next_event(4).is_none());
}

#[test]
fn note_events_sort_by_channel_then_note() {
    let mut b: EventBuffer<NoteKey> = EventBuffer::new(4);
    b.push(0, NoteKey { channel: 1, note: 60 }).unwrap();
    b.push(0, NoteKey { channel: 0, note: 64 }).unwrap();
    b.push(0, NoteKey { channel: 0, note: 62 }).unwrap();
    let keys: Vec<(u8, u8)> = b.iter_events().iter().map(|e| (e.value.channel, e.value.note)).collect();
    assert_eq!(keys, vec![(0, 62), (0, 64), (1, 60)]);
}

#[test]
fn ordered_with_merges_by_timestamp() {
    let a = vec![Timestamped { sample: 0, value: 1u32 }, Timestamped { sample: 2, value: 1 }];
    let b = vec![Timestamped { sample: 1, value: 2u32 }, Timestamped { sample: 2, value: 0 }];
    let merged = a.ordered_with(b).collect();
    let pairs: Vec<(usize, u32)> = merged.iter().map(|e| (e.sample, e.value)).collect();
    assert_eq!(pairs, vec![(0, 1), (1, 2), (2, 0), (2, 1)]);
}

#[test]
fn combinator_yields_one_event_at_a_time() {
    let a = vec![Timestamped { sample: 5, value: 0u8 }];
    let b = vec![Timestamped { sample: 5, value: 0u8 }];
    let mut c = a.ordered_with(b);
    assert_eq!(c.next().map(|e| e.sample), Some(5));
    assert_eq!(c.next().map(|e| e.sample), Some(5));
    assert!(c.next().is_none());
}

#[test]
fn timestamped_helpers() {
    let mut t = Timestamped { sample: 4, value: 10u32 };
    assert_eq!(*t.as_ref().value, 10);
    *t.as_mut().value = 11;
    assert_eq!(t.value, 11);
    let m = t.map(|v| v * 2);
    assert_eq!((m.sample, m.value), (4, 22));
}

#[test]
fn pushing_a_stored_event_changes_nothing() {
    let mut b: EventBuffer<u32> = EventBuffer::new(4);
    b.push(1, 2).unwrap();
    b.push(3, 4).unwrap();
    let before = contents(&b);
    b.push(3, 4).unwrap();
    assert_eq!(contents(&b), before);
    b.push(2, 9).unwrap();
    assert_eq!(contents(&b), vec![(1, 2), (2, 9), (3, 4)]);
}

#[test]
fn clearing_slots() {
    use_slot_clear();
}

fn use_slot_clear() {
    let mut samples = vec![1i32, 2, 3];
    {
        let mut slot: clogbox::graph::SlotMut<i32, u32, u32> = clogbox::graph::SlotMut::AudioBuffer(&mut samples);
        slot.clear(0);
    }
    assert_eq!(samples, vec![0, 0, 0]);
    let mut events: EventBuffer<u32> = EventBuffer::new(3);
    events.push(1, 1).unwrap();
    {
        let mut slot: clogbox::graph::SlotMut<i32, u32, u32> = clogbox::graph::SlotMut::ControlEvents(&mut events);
        slot.clear(0);
    }
    assert!(events.is_empty());
    assert_eq!(events.capacity(), 3);
}

#[test]
fn iter_events_mut_changes_values_in_place() {
    let mut b: EventBuffer<u32> = EventBuffer::new(4);
    b.push(1, 5).unwrap();
    b.push(2, 6).unwrap();
    for e in b.iter_events_mut() {
        *e.value += 1;
    }
    assert_eq!(contents(&b), vec![(1, 6), (2, 7)]);
}
