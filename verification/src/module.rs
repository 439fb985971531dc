//! Handles, ports, and the two interfaces of a module: the one that builds it
//! and the one that runs it.

use vstd::prelude::*;
use crate::voltage::{Voltage, ZERO_VOLTS};

verus! {

/// The index that stands for the audio output wherever a handle is written
/// down as a number.
pub const AUDIO_OUTPUT_INDEX: usize = usize::MAX;

/// Names one unit inside a rack.
#[derive(Copy, Clone, Debug, PartialEq, Eq, Structural, Hash)]
pub struct ModuleHandle(pub usize);

/// One input channel of one unit.
#[derive(Copy, Clone, Debug, PartialEq, Eq, Structural, Hash)]
pub struct ModuleInput {
    pub module: ModuleHandle,
    pub channel: usize,
}

/// One output channel of one unit.
#[derive(Copy, Clone, Debug, PartialEq, Eq, Structural, Hash)]
pub struct ModuleOutput {
    pub module: ModuleHandle,
    pub channel: usize,
}

impl ModuleHandle {
    /// The input channel `channel` of this unit.
    pub fn input(&self, channel: usize) -> (port: ModuleInput)
        ensures
            port == (ModuleInput { module: *self, channel }),
    {
        ModuleInput { module: *self, channel }
    }

    /// The output channel `channel` of this unit.
    pub fn output(&self, channel: usize) -> (port: ModuleOutput)
        ensures
            port == (ModuleOutput { module: *self, channel }),
    {
        ModuleOutput { module: *self, channel }
    }

    /// The handle reserved for the audio output. It names no unit.
    pub open spec fn sink() -> ModuleHandle {
        ModuleHandle(AUDIO_OUTPUT_INDEX)
    }

    /// Whether this is the handle reserved for the audio output.
    pub open spec fn is_sink(&self) -> bool {
        *self == Self::sink()
    }

    /// The handle reserved for the audio output.
    pub fn audio_output() -> (handle: ModuleHandle)
        ensures
            handle == Self::sink(),
    {
        ModuleHandle(AUDIO_OUTPUT_INDEX)
    }

    /// Tells whether this is the handle reserved for the audio output.
    pub fn is_audio_output(&self) -> (r: bool)
        ensures
            r == self.is_sink(),
    {
        self.0 == AUDIO_OUTPUT_INDEX
    }
}

/// What the rack runs: one unit of signal processing.
///
/// A unit is told the sample rate before it is first run and whenever the
/// rate changes, and is then run once per sample. The two relations say which
/// outcomes a call may have; the rack's own contracts are stated over them.
pub trait AudioUnit {
    /// Whether `reset(sample_rate)` may turn this unit into `next`. A unit
    /// that does not say is one of which any outcome must be expected.
    open spec fn retuned(&self, sample_rate: usize, next: &Self) -> bool {
        true
    }

    /// Whether one `tick` on `inputs`, with `outputs` holding what the unit
    /// wrote last, may turn this unit into `next` and leave `emitted` in the
    /// output buffer. A unit that does not say is one of which any outcome
    /// must be expected.
    open spec fn ticked(
        &self,
        inputs: Seq<Option<Voltage>>,
        outputs: Seq<Voltage>,
        next: &Self,
        emitted: Seq<Voltage>,
    ) -> bool {
        true
    }

    /// Derives again whatever depends on the sample rate.
    fn reset(&mut self, sample_rate: usize)
        ensures
            old(self).retuned(sample_rate, final(self)),
    ;

    /// Processes one sample: reads the input buffer, where `None` is an
    /// unpatched channel, and writes the output buffer, which keeps its
    /// length.
    fn tick(&mut self, inputs: &[Option<Voltage>], outputs: &mut [Voltage])
        ensures
            final(outputs)@.len() == old(outputs)@.len(),
            old(self).ticked(inputs@, old(outputs)@, final(self), final(outputs)@),
    ;
}

/// What builds a unit: a module knows its channel counts and makes the unit
/// that a rack will run.
pub trait Module {
    /// The kind of unit this module makes.
    type Unit: AudioUnit;

    /// Whether the module has `n` input channels. A module that does not
    /// say is one of which any count must be expected.
    open spec fn has_inputs(&self, n: usize) -> bool {
        true
    }

    /// Whether the module has `n` output channels. A module that does not
    /// say is one of which any count must be expected.
    open spec fn has_outputs(&self, n: usize) -> bool {
        true
    }

    /// Whether `unit` is a unit that `create_audio_unit` may hand out. A
    /// module that does not say is one of which any unit must be expected.
    open spec fn creates(&self, unit: &Self::Unit) -> bool {
        true
    }

    /// The number of input channels.
    fn inputs(&self) -> (n: usize)
        ensures
            self.has_inputs(n),
    ;

    /// The number of output channels.
    fn outputs(&self) -> (n: usize)
        ensures
            self.has_outputs(n),
    ;

    /// Makes a fresh unit.
    fn create_audio_unit(&self) -> (unit: Self::Unit)
        ensures
            self.creates(&unit),
    ;
}

/// The level on input channel `channel`: an unpatched channel, like one that
/// the buffer lacks, is at zero volts.
pub open spec fn input_level(inputs: Seq<Option<Voltage>>, channel: int) -> Voltage {
    if 0 <= channel < inputs.len() {
        match inputs[channel] {
            Some(v) => v,
            None => ZERO_VOLTS,
        }
    } else {
        ZERO_VOLTS
    }
}

/// Reads input channel `channel`.
pub fn read_input(inputs: &[Option<Voltage>], channel: usize) -> (level: Voltage)
    ensures
        level == input_level(inputs@, channel as int),
{
    if channel < inputs.len() {
        match inputs[channel] {
            Some(v) => v,
            None => ZERO_VOLTS,
        }
    } else {
        ZERO_VOLTS
    }
}

/// The output buffer `outputs` after `level` has been written to channel
/// `channel`: a channel that the buffer lacks is not written.
pub open spec fn written(outputs: Seq<Voltage>, channel: int, level: Voltage) -> Seq<Voltage> {
    if 0 <= channel < outputs.len() {
        outputs.update(channel, level)
    } else {
        outputs
    }
}

/// Writes `level` to output channel `channel`.
pub fn write_output(outputs: &mut [Voltage], channel: usize, level: Voltage)
    ensures
        final(outputs)@ == written(old(outputs)@, channel as int, level),
{
    if channel < outputs.len() {
        outputs[channel] = level;
    }
}

} // verus!
