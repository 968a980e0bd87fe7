//! Audio graph building blocks: slot types, timestamped values, event
//! buffers, borrow bookkeeping and the graph editing helper.
use vstd::prelude::*;
use crate::enums::Enum;
use event::EventBuffer;

pub mod event;
pub mod storage;
pub mod ir;
pub mod slot_store;
pub mod helper;
pub mod slots;
pub mod module;
pub mod schedule;

verus! {

/// Kinds of slots that a module can expose.
#[derive(Debug, Copy, Clone, PartialEq, Eq, Hash)]
pub enum SlotType {
    /// Audio-rate data.
    Audio,
    /// Control-rate events.
    Control,
    /// Note events.
    Note,
}

impl SlotType {
    /// Whether a slot of this type can be connected into a slot of `other`'s
    /// type: only slots of the same type connect.
    pub fn connects_to(self, other: Self) -> (b: bool)
        ensures
            b == (self == other),
    {
        match (self, other) {
            (SlotType::Audio, SlotType::Audio) => true,
            (SlotType::Control, SlotType::Control) => true,
            (SlotType::Note, SlotType::Note) => true,
            _ => false,
        }
    }
}

impl Enum for SlotType {
    open spec fn spec_count() -> nat {
        3
    }

    open spec fn spec_fits() -> bool {
        true
    }

    proof fn lemma_fits() {
    }

    open spec fn spec_index(self) -> nat {
        match self {
            SlotType::Audio => 0,
            SlotType::Control => 1,
            SlotType::Note => 2,
        }
    }

    open spec fn spec_variant(i: nat) -> Self {
        if i == 0 {
            SlotType::Audio
        } else if i == 1 {
            SlotType::Control
        } else {
            SlotType::Note
        }
    }

    proof fn lemma_variant_index(i: nat) {
    }

    open spec fn spec_name(self) -> Seq<char> {
        match self {
            SlotType::Audio => "Audio"@,
            SlotType::Control => "Control"@,
            SlotType::Note => "Note"@,
        }
    }

    fn count() -> (n: usize) {
        3
    }

    fn from_usize(i: usize) -> (e: Self) {
        if i == 0 {
            SlotType::Audio
        } else if i == 1 {
            SlotType::Control
        } else {
            SlotType::Note
        }
    }

    fn to_usize(self) -> (i: usize) {
        match self {
            SlotType::Audio => 0,
            SlotType::Control => 1,
            SlotType::Note => 2,
        }
    }

    fn name(&self) -> (s: String) {
        match self {
            SlotType::Audio => String::from_str("Audio"),
            SlotType::Control => String::from_str("Control"),
            SlotType::Note => String::from_str("Note"),
        }
    }
}

/// A value paired with the sample position at which it happens, relative to
/// the start of the current processing block.
#[derive(Debug, Copy, Clone, PartialEq, Eq)]
pub struct Timestamped<T> {
    /// Sample position.
    pub sample: usize,
    /// Inner value.
    pub value: T,
}

impl<T> Timestamped<T> {
    /// Keeps the timestamp and borrows the value.
    pub fn as_ref(&self) -> (r: Timestamped<&T>)
        ensures
            r.sample == self.sample,
            *r.value == self.value,
    {
        Timestamped { sample: self.sample, value: &self.value }
    }

    /// Keeps the timestamp and borrows the value mutably.
    pub fn as_mut(&mut self) -> (r: Timestamped<&mut T>)
        ensures
            r.sample == old(self).sample,
            *r.value == old(self).value,
            final(self).sample == old(self).sample,
            final(self).value == *final(r.value),
    {
        Timestamped { sample: self.sample, value: &mut self.value }
    }

    /// Transforms the value with `f`, keeping the timestamp.
    pub fn map<U, F: FnOnce(T) -> U>(self, f: F) -> (r: Timestamped<U>)
        requires
            call_requires(f, (self.value,)),
        ensures
            r.sample == self.sample,
            call_ensures(f, (self.value,), r.value),
    {
        Timestamped { sample: self.sample, value: f(self.value) }
    }
}

/// Identifies a note: its channel and key number.
#[derive(Debug, Clone, Copy, PartialEq, Eq, Hash)]
pub struct NoteKey {
    /// Note channel.
    pub channel: u8,
    /// Note key index.
    pub note: u8,
}

/// Overwrites every sample of a buffer with `x`.
fn fill_slice<T: Copy>(buf: &mut [T], x: T)
    ensures
        final(buf)@ == Seq::new(old(buf)@.len(), |j: int| x),
{
    let n = buf.len();
    let mut i: usize = 0;
    while i < n
        invariant
            i <= n,
            buf@.len() == n,
            forall|j: int| 0 <= j < i ==> #[trigger] buf@[j] == x,
        decreases n - i,
    {
        buf[i] = x;
        i = i + 1;
    }
    assert(buf@ =~= Seq::new(n as nat, |j: int| x));
}

/// A mutably borrowed buffer of one of the slot types: a block of audio
/// samples, or a buffer of control or note events.
pub enum SlotMut<'a, T, C, N> {
    /// Audio-rate buffer.
    AudioBuffer(&'a mut [T]),
    /// Control-rate events buffer.
    ControlEvents(&'a mut EventBuffer<C>),
    /// Note events buffer.
    NoteEvents(&'a mut EventBuffer<N>),
}

impl<'a, T: Copy, C, N> SlotMut<'a, T, C, N> {
    /// Clears the buffer: an audio buffer is filled with `zero`, an events
    /// buffer loses all its events (and keeps its capacity).
    pub fn clear(&mut self, zero: T)
        ensures
            match (*old(self), *final(self)) {
                (SlotMut::AudioBuffer(before), SlotMut::AudioBuffer(after)) => after@ == Seq::new(
                    before@.len(),
                    |i: int| zero,
                ) && final(after)@ == final(before)@,
                (SlotMut::ControlEvents(before), SlotMut::ControlEvents(after)) => after@.len() == 0
                    && after.spec_capacity() == before.spec_capacity() && *final(after) == *final(before),
                (SlotMut::NoteEvents(before), SlotMut::NoteEvents(after)) => after@.len() == 0
                    && after.spec_capacity() == before.spec_capacity() && *final(after) == *final(before),
                _ => false,
            },
    {
        match self {
            SlotMut::AudioBuffer(buf) => {
                fill_slice(buf, zero);
            },
            SlotMut::ControlEvents(events) => {
                events.clear();
            },
            SlotMut::NoteEvents(events) => {
                events.clear();
            },
        }
    }
}

/// The values of `SlotType` are numbered from zero in the order in which they
/// are declared, and each is named by its identifier.
pub proof fn lemma_slot_type_declaration_order()
    ensures
        SlotType::Audio.spec_name() == "Audio"@,
        SlotType::Control.spec_name() == "Control"@,
        SlotType::Note.spec_name() == "Note"@,
        SlotType::spec_count() == 3,
        SlotType::Audio.spec_index() == 0,
        SlotType::spec_variant(0) == SlotType::Audio,
        SlotType::Control.spec_index() == 1,
        SlotType::spec_variant(1) == SlotType::Control,
        SlotType::Note.spec_index() == 2,
        SlotType::spec_variant(2) == SlotType::Note,
{
}

} // verus!
