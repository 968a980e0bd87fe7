//! Identifiers of the filters' parameters, outputs and modes.
//!
//! Each is an [`Enum`], numbered in declaration order, whose names are the
//! variants' names.
use vstd::prelude::*;
use crate::enums::Enum;

verus! {

/// Parameters of the one-pole multi-mode filter.
#[derive(Debug, Copy, Clone, PartialEq, Eq, Hash)]
pub enum MultimodeParams {
    /// Cutoff frequency (Hz).
    Cutoff,
}

impl Enum for MultimodeParams {
    open spec fn spec_count() -> nat {
        1
    }

    open spec fn spec_fits() -> bool {
        true
    }

    proof fn lemma_fits() {
    }

    open spec fn spec_index(self) -> nat {
        match self {
            MultimodeParams::Cutoff => 0,
        }
    }

    open spec fn spec_variant(i: nat) -> Self {
        MultimodeParams::Cutoff
    }

    proof fn lemma_variant_index(i: nat) {
    }

    open spec fn spec_name(self) -> Seq<char> {
        match self {
            MultimodeParams::Cutoff => "Cutoff"@,
        }
    }

    fn count() -> (n: usize) {
        1
    }

    fn from_usize(i: usize) -> (e: Self) {
        MultimodeParams::Cutoff
    }

    fn to_usize(self) -> (i: usize) {
        match self {
            MultimodeParams::Cutoff => 0,
        }
    }

    fn name(&self) -> (s: String) {
        match self {
            MultimodeParams::Cutoff => String::from_str("Cutoff"),
        }
    }
}

/// Parameters of the state-variable filter.
#[derive(Debug, Copy, Clone, PartialEq, Eq, Hash)]
pub enum SvfParams {
    /// Cutoff frequency (Hz).
    Cutoff,
    /// Resonance.
    Resonance,
    /// Drive.
    Drive,
}

impl Enum for SvfParams {
    open spec fn spec_count() -> nat {
        3
    }

    open spec fn spec_fits() -> bool {
        true
    }

    proof fn lemma_fits() {
    }

    open spec fn spec_index(self) -> nat {
        match self {
            SvfParams::Cutoff => 0,
            SvfParams::Resonance => 1,
            SvfParams::Drive => 2,
        }
    }

    open spec fn spec_variant(i: nat) -> Self {
        if i == 0 {
            SvfParams::Cutoff
        } else if i == 1 {
            SvfParams::Resonance
        } else {
            SvfParams::Drive
        }
    }

    proof fn lemma_variant_index(i: nat) {
    }

    open spec fn spec_name(self) -> Seq<char> {
        match self {
            SvfParams::Cutoff => "Cutoff"@,
            SvfParams::Resonance => "Resonance"@,
            SvfParams::Drive => "Drive"@,
        }
    }

    fn count() -> (n: usize) {
        3
    }

    fn from_usize(i: usize) -> (e: Self) {
        if i == 0 {
            SvfParams::Cutoff
        } else if i == 1 {
            SvfParams::Resonance
        } else {
            SvfParams::Drive
        }
    }

    fn to_usize(self) -> (i: usize) {
        match self {
            SvfParams::Cutoff => 0,
            SvfParams::Resonance => 1,
            SvfParams::Drive => 2,
        }
    }

    fn name(&self) -> (s: String) {
        match self {
            SvfParams::Cutoff => String::from_str("Cutoff"),
            SvfParams::Resonance => String::from_str("Resonance"),
            SvfParams::Drive => String::from_str("Drive"),
        }
    }
}

/// Outputs of the state-variable filter.
#[derive(Debug, Copy, Clone, PartialEq, Eq, Hash)]
pub enum SvfOutput {
    /// Lowpass output.
    Lowpass,
    /// Bandpass output.
    Bandpass,
    /// Highpass output.
    Highpass,
}

impl Enum for SvfOutput {
    open spec fn spec_count() -> nat {
        3
    }

    open spec fn spec_fits() -> bool {
        true
    }

    proof fn lemma_fits() {
    }

    open spec fn spec_index(self) -> nat {
        match self {
            SvfOutput::Lowpass => 0,
            SvfOutput::Bandpass => 1,
            SvfOutput::Highpass => 2,
        }
    }

    open spec fn spec_variant(i: nat) -> Self {
        if i == 0 {
            SvfOutput::Lowpass
        } else if i == 1 {
            SvfOutput::Bandpass
        } else {
            SvfOutput::Highpass
        }
    }

    proof fn lemma_variant_index(i: nat) {
    }

    open spec fn spec_name(self) -> Seq<char> {
        match self {
            SvfOutput::Lowpass => "Lowpass"@,
            SvfOutput::Bandpass => "Bandpass"@,
            SvfOutput::Highpass => "Highpass"@,
        }
    }

    fn count() -> (n: usize) {
        3
    }

    fn from_usize(i: usize) -> (e: Self) {
        if i == 0 {
            SvfOutput::Lowpass
        } else if i == 1 {
            SvfOutput::Bandpass
        } else {
            SvfOutput::Highpass
        }
    }

    fn to_usize(self) -> (i: usize) {
        match self {
            SvfOutput::Lowpass => 0,
            SvfOutput::Bandpass => 1,
            SvfOutput::Highpass => 2,
        }
    }

    fn name(&self) -> (s: String) {
        match self {
            SvfOutput::Lowpass => String::from_str("Lowpass"),
            SvfOutput::Bandpass => String::from_str("Bandpass"),
            SvfOutput::Highpass => String::from_str("Highpass"),
        }
    }
}

/// Filter responses that the state-variable filter mixer produces.
#[derive(Debug, Copy, Clone, PartialEq, Eq, Hash)]
pub enum FilterType {
    /// No filtering: the signal passes unchanged.
    Bypass,
    /// Low-pass filter.
    Lowpass,
    /// Band-pass filter.
    Bandpass,
    /// High-pass filter.
    Highpass,
    /// Low-shelf filter.
    Lowshelf,
    /// High-shelf filter.
    Highshelf,
    /// Sharp peak filter.
    PeakSharp,
    /// Shelving peak filter.
    PeakShelf,
    /// Notch filter.
    Notch,
    /// All-pass filter.
    Allpass,
}

impl Enum for FilterType {
    open spec fn spec_count() -> nat {
        10
    }

    open spec fn spec_fits() -> bool {
        true
    }

    proof fn lemma_fits() {
    }

    open spec fn spec_index(self) -> nat {
        match self {
            FilterType::Bypass => 0,
            FilterType::Lowpass => 1,
            FilterType::Bandpass => 2,
            FilterType::Highpass => 3,
            FilterType::Lowshelf => 4,
            FilterType::Highshelf => 5,
            FilterType::PeakSharp => 6,
            FilterType::PeakShelf => 7,
            FilterType::Notch => 8,
            FilterType::Allpass => 9,
        }
    }

    open spec fn spec_variant(i: nat) -> Self {
        if i == 0 {
            FilterType::Bypass
        } else if i == 1 {
            FilterType::Lowpass
        } else if i == 2 {
            FilterType::Bandpass
        } else if i == 3 {
            FilterType::Highpass
        } else if i == 4 {
            FilterType::Lowshelf
        } else if i == 5 {
            FilterType::Highshelf
        } else if i == 6 {
            FilterType::PeakSharp
        } else if i == 7 {
            FilterType::PeakShelf
        } else if i == 8 {
            FilterType::Notch
        } else {
            FilterType::Allpass
        }
    }

    proof fn lemma_variant_index(i: nat) {
    }

    open spec fn spec_name(self) -> Seq<char> {
        match self {
            FilterType::Bypass => "Bypass"@,
            FilterType::Lowpass => "Lowpass"@,
            FilterType::Bandpass => "Bandpass"@,
            FilterType::Highpass => "Highpass"@,
            FilterType::Lowshelf => "Lowshelf"@,
            FilterType::Highshelf => "Highshelf"@,
            FilterType::PeakSharp => "PeakSharp"@,
            FilterType::PeakShelf => "PeakShelf"@,
            FilterType::Notch => "Notch"@,
            FilterType::Allpass => "Allpass"@,
        }
    }

    fn count() -> (n: usize) {
        10
    }

    fn from_usize(i: usize) -> (e: Self) {
        if i == 0 {
            FilterType::Bypass
        } else if i == 1 {
            FilterType::Lowpass
        } else if i == 2 {
            FilterType::Bandpass
        } else if i == 3 {
            FilterType::Highpass
        } else if i == 4 {
            FilterType::Lowshelf
        } else if i == 5 {
            FilterType::Highshelf
        } else if i == 6 {
            FilterType::PeakSharp
        } else if i == 7 {
            FilterType::PeakShelf
        } else if i == 8 {
            FilterType::Notch
        } else {
            FilterType::Allpass
        }
    }

    fn to_usize(self) -> (i: usize) {
        match self {
            FilterType::Bypass => 0,
            FilterType::Lowpass => 1,
            FilterType::Bandpass => 2,
            FilterType::Highpass => 3,
            FilterType::Lowshelf => 4,
            FilterType::Highshelf => 5,
            FilterType::PeakSharp => 6,
            FilterType::PeakShelf => 7,
            FilterType::Notch => 8,
            FilterType::Allpass => 9,
        }
    }

    fn name(&self) -> (s: String) {
        match self {
            FilterType::Bypass => String::from_str("Bypass"),
            FilterType::Lowpass => String::from_str("Lowpass"),
            FilterType::Bandpass => String::from_str("Bandpass"),
            FilterType::Highpass => String::from_str("Highpass"),
            FilterType::Lowshelf => String::from_str("Lowshelf"),
            FilterType::Highshelf => String::from_str("Highshelf"),
            FilterType::PeakSharp => String::from_str("PeakSharp"),
            FilterType::PeakShelf => String::from_str("PeakShelf"),
            FilterType::Notch => String::from_str("Notch"),
            FilterType::Allpass => String::from_str("Allpass"),
        }
    }
}

/// Parameters of the state-variable filter mixer.
#[derive(Debug, Copy, Clone, PartialEq, Eq, Hash)]
pub enum SvfMixerParams {
    /// Response to produce.
    FilterType,
    /// Amplitude of the shelf and peak responses.
    Amplitude,
}

impl Enum for SvfMixerParams {
    open spec fn spec_count() -> nat {
        2
    }

    open spec fn spec_fits() -> bool {
        true
    }

    proof fn lemma_fits() {
    }

    open spec fn spec_index(self) -> nat {
        match self {
            SvfMixerParams::FilterType => 0,
            SvfMixerParams::Amplitude => 1,
        }
    }

    open spec fn spec_variant(i: nat) -> Self {
        if i == 0 {
            SvfMixerParams::FilterType
        } else {
            SvfMixerParams::Amplitude
        }
    }

    proof fn lemma_variant_index(i: nat) {
    }

    open spec fn spec_name(self) -> Seq<char> {
        match self {
            SvfMixerParams::FilterType => "FilterType"@,
            SvfMixerParams::Amplitude => "Amplitude"@,
        }
    }

    fn count() -> (n: usize) {
        2
    }

    fn from_usize(i: usize) -> (e: Self) {
        if i == 0 {
            SvfMixerParams::FilterType
        } else {
            SvfMixerParams::Amplitude
        }
    }

    fn to_usize(self) -> (i: usize) {
        match self {
            SvfMixerParams::FilterType => 0,
            SvfMixerParams::Amplitude => 1,
        }
    }

    fn name(&self) -> (s: String) {
        match self {
            SvfMixerParams::FilterType => String::from_str("FilterType"),
            SvfMixerParams::Amplitude => String::from_str("Amplitude"),
        }
    }
}

/// Inputs of the state-variable filter mixer: the audio input, the
/// filter's outputs, and the mixer's parameters.
#[derive(Debug, Copy, Clone, PartialEq, Eq, Hash)]
pub enum SvfMixerInput {
    /// The unfiltered audio input.
    AudioInput,
    /// One of the filter's outputs.
    SvfOutput(SvfOutput),
    /// One of the mixer's parameters.
    Params(SvfMixerParams),
}

impl Enum for SvfMixerInput {
    open spec fn spec_count() -> nat {
        6
    }

    open spec fn spec_fits() -> bool {
        true
    }

    proof fn lemma_fits() {
    }

    open spec fn spec_index(self) -> nat {
        match self {
            SvfMixerInput::AudioInput => 0,
            SvfMixerInput::SvfOutput(o) => 1 + o.spec_index(),
            SvfMixerInput::Params(p) => 4 + p.spec_index(),
        }
    }

    open spec fn spec_variant(i: nat) -> Self {
        if i == 0 {
            SvfMixerInput::AudioInput
        } else if i < 4 {
            SvfMixerInput::SvfOutput(SvfOutput::spec_variant((i - 1) as nat))
        } else {
            SvfMixerInput::Params(SvfMixerParams::spec_variant((i - 4) as nat))
        }
    }

    proof fn lemma_variant_index(i: nat) {
    }

    open spec fn spec_name(self) -> Seq<char> {
        match self {
            SvfMixerInput::AudioInput => "AudioInput"@,
            SvfMixerInput::SvfOutput(o) => o.spec_name(),
            SvfMixerInput::Params(p) => p.spec_name(),
        }
    }

    fn count() -> (n: usize) {
        6
    }

    fn from_usize(i: usize) -> (e: Self) {
        if i == 0 {
            SvfMixerInput::AudioInput
        } else if i < 4 {
            SvfMixerInput::SvfOutput(SvfOutput::from_usize(i - 1))
        } else {
            SvfMixerInput::Params(SvfMixerParams::from_usize(i - 4))
        }
    }

    fn to_usize(self) -> (i: usize) {
        match self {
            SvfMixerInput::AudioInput => 0,
            SvfMixerInput::SvfOutput(o) => 1 + o.to_usize(),
            SvfMixerInput::Params(p) => 4 + p.to_usize(),
        }
    }

    fn name(&self) -> (s: String) {
        match self {
            SvfMixerInput::AudioInput => String::from_str("AudioInput"),
            SvfMixerInput::SvfOutput(o) => o.name(),
            SvfMixerInput::Params(p) => p.name(),
        }
    }
}

/// Marker for state-variable filters with transconductance-amplifier
/// non-linearities.
#[derive(Debug, Copy, Clone, PartialEq, Eq)]
pub struct Ota;

/// The values of `MultimodeParams` are numbered from zero in the order in which they
/// are declared, and each is named by its identifier.
pub proof fn lemma_multimode_params_declaration_order()
    ensures
        MultimodeParams::Cutoff.spec_name() == "Cutoff"@,
        MultimodeParams::spec_count() == 1,
        MultimodeParams::Cutoff.spec_index() == 0,
        MultimodeParams::spec_variant(0) == MultimodeParams::Cutoff,
{
}

/// The values of `SvfParams` are numbered from zero in the order in which they
/// are declared, and each is named by its identifier.
pub proof fn lemma_svf_params_declaration_order()
    ensures
        SvfParams::Cutoff.spec_name() == "Cutoff"@,
        SvfParams::Resonance.spec_name() == "Resonance"@,
        SvfParams::Drive.spec_name() == "Drive"@,
        SvfParams::spec_count() == 3,
        SvfParams::Cutoff.spec_index() == 0,
        SvfParams::spec_variant(0) == SvfParams::Cutoff,
        SvfParams::Resonance.spec_index() == 1,
        SvfParams::spec_variant(1) == SvfParams::Resonance,
        SvfParams::Drive.spec_index() == 2,
        SvfParams::spec_variant(2) == SvfParams::Drive,
{
}

/// The values of `SvfOutput` are numbered from zero in the order in which they
/// are declared, and each is named by its identifier.
pub proof fn lemma_svf_output_declaration_order()
    ensures
        SvfOutput::Lowpass.spec_name() == "Lowpass"@,
        SvfOutput::Bandpass.spec_name() == "Bandpass"@,
        SvfOutput::Highpass.spec_name() == "Highpass"@,
        SvfOutput::spec_count() == 3,
        SvfOutput::Lowpass.spec_index() == 0,
        SvfOutput::spec_variant(0) == SvfOutput::Lowpass,
        SvfOutput::Bandpass.spec_index() == 1,
        SvfOutput::spec_variant(1) == SvfOutput::Bandpass,
        SvfOutput::Highpass.spec_index() == 2,
        SvfOutput::spec_variant(2) == SvfOutput::Highpass,
{
}

/// The values of `FilterType` are numbered from zero in the order in which they
/// are declared, and each is named by its identifier.
pub proof fn lemma_filter_type_declaration_order()
    ensures
        FilterType::Bypass.spec_name() == "Bypass"@,
        FilterType::Lowpass.spec_name() == "Lowpass"@,
        FilterType::Bandpass.spec_name() == "Bandpass"@,
        FilterType::Highpass.spec_name() == "Highpass"@,
        FilterType::Lowshelf.spec_name() == "Lowshelf"@,
        FilterType::Highshelf.spec_name() == "Highshelf"@,
        FilterType::PeakSharp.spec_name() == "PeakSharp"@,
        FilterType::PeakShelf.spec_name() == "PeakShelf"@,
        FilterType::Notch.spec_name() == "Notch"@,
        FilterType::Allpass.spec_name() == "Allpass"@,
        FilterType::spec_count() == 10,
        FilterType::Bypass.spec_index() == 0,
        FilterType::spec_variant(0) == FilterType::Bypass,
        FilterType::Lowpass.spec_index() == 1,
        FilterType::spec_variant(1) == FilterType::Lowpass,
        FilterType::Bandpass.spec_index() == 2,
        FilterType::spec_variant(2) == FilterType::Bandpass,
        FilterType::Highpass.spec_index() == 3,
        FilterType::spec_variant(3) == FilterType::Highpass,
        FilterType::Lowshelf.spec_index() == 4,
        FilterType::spec_variant(4) == FilterType::Lowshelf,
        FilterType::Highshelf.spec_index() == 5,
        FilterType::spec_variant(5) == FilterType::Highshelf,
        FilterType::PeakSharp.spec_index() == 6,
        FilterType::spec_variant(6) == FilterType::PeakSharp,
        FilterType::PeakShelf.spec_index() == 7,
        FilterType::spec_variant(7) == FilterType::PeakShelf,
        FilterType::Notch.spec_index() == 8,
        FilterType::spec_variant(8) == FilterType::Notch,
        FilterType::Allpass.spec_index() == 9,
        FilterType::spec_variant(9) == FilterType::Allpass,
{
}

/// The values of `SvfMixerParams` are numbered from zero in the order in which they
/// are declared, and each is named by its identifier.
pub proof fn lemma_svf_mixer_params_declaration_order()
    ensures
        SvfMixerParams::FilterType.spec_name() == "FilterType"@,
        SvfMixerParams::Amplitude.spec_name() == "Amplitude"@,
        SvfMixerParams::spec_count() == 2,
        SvfMixerParams::FilterType.spec_index() == 0,
        SvfMixerParams::spec_variant(0) == SvfMixerParams::FilterType,
        SvfMixerParams::Amplitude.spec_index() == 1,
        SvfMixerParams::spec_variant(1) == SvfMixerParams::Amplitude,
{
}

/// The inputs of the filter mixer are numbered in declaration order, each
/// wrapped enum taking the next block of indices: the audio input first,
/// then the filter outputs, then the parameters. A wrapped value keeps the
/// name of the value it wraps.
pub proof fn lemma_svf_mixer_input_declaration_order(o: SvfOutput, p: SvfMixerParams)
    ensures
        SvfMixerInput::spec_count() == 1 + SvfOutput::spec_count() + SvfMixerParams::spec_count(),
        SvfMixerInput::AudioInput.spec_index() == 0,
        SvfMixerInput::AudioInput.spec_name() == "AudioInput"@,
        SvfMixerInput::SvfOutput(o).spec_name() == o.spec_name(),
        SvfMixerInput::Params(p).spec_name() == p.spec_name(),
        SvfMixerInput::spec_variant(0) == SvfMixerInput::AudioInput,
        SvfMixerInput::SvfOutput(o).spec_index() == 1 + o.spec_index(),
        SvfMixerInput::spec_variant(1 + o.spec_index()) == SvfMixerInput::SvfOutput(o),
        SvfMixerInput::Params(p).spec_index() == 1 + SvfOutput::spec_count() + p.spec_index(),
        SvfMixerInput::spec_variant(1 + SvfOutput::spec_count() + p.spec_index()) == SvfMixerInput::Params(p),
{
    lemma_svf_output_declaration_order();
    lemma_svf_mixer_params_declaration_order();
}

} // verus!
