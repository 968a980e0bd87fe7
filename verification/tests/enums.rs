use clogbox::enums::{count, enum_iter, CartesianProduct, Enum, Mono, Sequential, Stereo};
use clogbox::filters::{FilterType, MultimodeParams, SvfMixerInput, SvfMixerParams, SvfOutput, SvfParams};
use clogbox::graph::slots::{EnumSlots, Slots, AUDIO, CONTROL, NOTE};
use clogbox::graph::SlotType;
use clogbox::text::{join_with, usize_to_decimal};

#[test]
fn mono_and_stereo() {
    assert_eq!(count::<Mono>(), 1);
    assert_eq!(count::<Stereo>(), 2);
    assert_eq!(Stereo::from_usize(1), Stereo::Right);
    assert_eq!(Stereo::Left.to_usize(), 0);
    assert_eq!(Stereo::Right.name(), "Right");
    assert_eq!(Mono::Mono.name(), "Mono");
}

#[test]
fn sequential_names_are_one_based() {
    let all = enum_iter::<Sequential<12>>();
    assert_eq!(all.len(), 12);
    assert_eq!(all[0].name(), "1");
    assert_eq!(all[9].name(), "10");
    assert_eq!(all[11].name(), "12");
    assert_eq!(clogbox::enums::seq::<12>(7).index(), 7);
    assert_eq!(clogbox::enums::seq::<12>(7).to_usize(), 7);
}

#[test]
fn cartesian_product_orders_by_first_then_second() {
    type P = CartesianProduct<Stereo, SvfOutput>;
    assert_eq!(count::<P>(), 6);
    assert_eq!(CartesianProduct(Stereo::Right, SvfOutput::Bandpass).to_usize(), 4);
    let p = P::from_usize(2);
    assert_eq!(p.0, Stereo::Left);
    assert_eq!(p.1, SvfOutput::Highpass);
    assert_eq!(p.name(), "Left:Highpass");
    for i in 0..6 {
        assert_eq!(P::from_usize(i).to_usize(), i);
    }
}

#[test]
fn slot_type_enum() {
    assert_eq!(count::<SlotType>(), 3);
    assert_eq!(SlotType::from_usize(2), SlotType::Note);
    assert_eq!(SlotType::Control.name(), "Control");
    assert!(SlotType::Audio.connects_to(SlotType::Audio));
    assert!(!SlotType::Audio.connects_to(SlotType::Note));
}

#[test]
fn enum_slots_carry_their_type() {
    let a: EnumSlots<Stereo, AUDIO> = EnumSlots(Stereo::Left);
    let c: EnumSlots<Stereo, CONTROL> = EnumSlots(Stereo::Right);
    let n: EnumSlots<Mono, NOTE> = EnumSlots(Mono::Mono);
    assert_eq!(a.slot_type(), SlotType::Audio);
    assert_eq!(c.slot_type(), SlotType::Control);
    assert_eq!(n.slot_type(), SlotType::Note);
    assert_eq!(c.to_usize(), 1);
    assert_eq!(c.name(), "Right");
    assert_eq!(Stereo::Left.slot_type(), SlotType::Audio);
    assert_eq!(Mono::Mono.slot_type(), SlotType::Audio);
}

#[test]
fn filter_enums_are_numbered_in_declaration_order() {
    assert_eq!(count::<MultimodeParams>(), 1);
    assert_eq!(count::<SvfParams>(), 3);
    assert_eq!(SvfParams::from_usize(2), SvfParams::Drive);
    assert_eq!(count::<FilterType>(), 10);
    assert_eq!(FilterType::Allpass.to_usize(), 9);
    assert_eq!(FilterType::from_usize(6), FilterType::PeakSharp);
    assert_eq!(FilterType::PeakShelf.name(), "PeakShelf");
    assert_eq!(count::<SvfMixerParams>(), 2);
    assert_eq!(SvfMixerParams::Amplitude.name(), "Amplitude");
}

#[test]
fn mixer_inputs_nest_outputs_and_params() {
    assert_eq!(count::<SvfMixerInput>(), 6);
    assert_eq!(SvfMixerInput::AudioInput.to_usize(), 0);
    assert_eq!(SvfMixerInput::SvfOutput(SvfOutput::Highpass).to_usize(), 3);
    assert_eq!(SvfMixerInput::Params(SvfMixerParams::FilterType).to_usize(), 4);
    assert_eq!(SvfMixerInput::from_usize(5), SvfMixerInput::Params(SvfMixerParams::Amplitude));
    assert_eq!(SvfMixerInput::from_usize(2).name(), "Bandpass");
    let names: Vec<String> = enum_iter::<SvfMixerInput>().iter().map(|e| e.name()).collect();
    assert_eq!(names, vec!["AudioInput", "Lowpass", "Bandpass", "Highpass", "FilterType", "Amplitude"]);
}

#[test]
fn decimal_text() {
    assert_eq!(usize_to_decimal(0), "0");
    assert_eq!(usize_to_decimal(907), "907");
    assert_eq!(join_with("a", ", ", "b"), "a, b");
}
