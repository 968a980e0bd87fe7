//! Enums describing the input and output slots of a module.
use vstd::prelude::*;
use super::SlotType;
use crate::enums::{Enum, Mono, Stereo};

verus! {

/// An enum whose values are the input or output slots of a module, each
/// with the type of data it carries.
pub trait Slots: Enum {
    /// Type of data carried by this slot.
    spec fn spec_slot_type(self) -> SlotType;

    /// Type of data carried by this slot.
    fn slot_type(&self) -> (t: SlotType)
        ensures
            t == self.spec_slot_type(),
    ;
}

/// Index of audio slots, as used by [`EnumSlots`].
pub const AUDIO: usize = 0;

/// Index of control slots, as used by [`EnumSlots`].
pub const CONTROL: usize = 1;

/// Index of note slots, as used by [`EnumSlots`].
pub const NOTE: usize = 2;

/// Slots given by the values of an enum, all of the same slot type,
/// selected by `SLOT_TYPE_IDX` (one of [`AUDIO`], [`CONTROL`], [`NOTE`]).
#[derive(Debug, Clone, Copy, PartialEq, Eq, Hash)]
pub struct EnumSlots<E, const SLOT_TYPE_IDX: usize>(pub E);

impl<E: Enum, const SLOT_TYPE_IDX: usize> Enum for EnumSlots<E, SLOT_TYPE_IDX> {
    open spec fn spec_count() -> nat {
        E::spec_count()
    }

    open spec fn spec_fits() -> bool {
        E::spec_fits()
    }

    proof fn lemma_fits() {
        E::lemma_fits();
    }

    open spec fn spec_index(self) -> nat {
        self.0.spec_index()
    }

    open spec fn spec_variant(i: nat) -> Self {
        EnumSlots(E::spec_variant(i))
    }

    proof fn lemma_variant_index(i: nat) {
        E::lemma_variant_index(i);
    }

    open spec fn spec_name(self) -> Seq<char> {
        self.0.spec_name()
    }

    fn count() -> (n: usize) {
        E::count()
    }

    fn from_usize(i: usize) -> (e: Self) {
        EnumSlots(E::from_usize(i))
    }

    fn to_usize(self) -> (i: usize) {
        self.0.to_usize()
    }

    fn name(&self) -> (s: String) {
        self.0.name()
    }
}

impl<E: Enum> Slots for EnumSlots<E, AUDIO> {
    open spec fn spec_slot_type(self) -> SlotType {
        SlotType::Audio
    }

    fn slot_type(&self) -> (t: SlotType) {
        SlotType::Audio
    }
}

impl<E: Enum> Slots for EnumSlots<E, CONTROL> {
    open spec fn spec_slot_type(self) -> SlotType {
        SlotType::Control
    }

    fn slot_type(&self) -> (t: SlotType) {
        SlotType::Control
    }
}

impl<E: Enum> Slots for EnumSlots<E, NOTE> {
    open spec fn spec_slot_type(self) -> SlotType {
        SlotType::Note
    }

    fn slot_type(&self) -> (t: SlotType) {
        SlotType::Note
    }
}

impl Slots for Mono {
    open spec fn spec_slot_type(self) -> SlotType {
        SlotType::Audio
    }

    fn slot_type(&self) -> (t: SlotType) {
        SlotType::Audio
    }
}

impl Slots for Stereo {
    open spec fn spec_slot_type(self) -> SlotType {
        SlotType::Audio
    }

    fn slot_type(&self) -> (t: SlotType) {
        SlotType::Audio
    }
}

/// Slots given by an enum are numbered and named as the values they wrap,
/// and carry the data that their slot-type index selects: audio, control
/// events or note events. Mono and stereo channels are audio slots.
pub proof fn lemma_enum_slots<E: Enum>(e: E)
    ensures
        EnumSlots::<E, AUDIO>::spec_count() == E::spec_count(),
        EnumSlots::<E, AUDIO>(e).spec_index() == e.spec_index(),
        EnumSlots::<E, AUDIO>(e).spec_name() == e.spec_name(),
        EnumSlots::<E, AUDIO>(e).spec_slot_type() == SlotType::Audio,
        EnumSlots::<E, CONTROL>(e).spec_index() == e.spec_index(),
        EnumSlots::<E, CONTROL>(e).spec_slot_type() == SlotType::Control,
        EnumSlots::<E, NOTE>(e).spec_index() == e.spec_index(),
        EnumSlots::<E, NOTE>(e).spec_slot_type() == SlotType::Note,
        Mono::Mono.spec_slot_type() == SlotType::Audio,
        Stereo::Left.spec_slot_type() == SlotType::Audio,
        Stereo::Right.spec_slot_type() == SlotType::Audio,
{
}

} // verus!
