//! A step sequencer: eight notes, played one after the other, a step on each
//! trigger.

use vstd::prelude::*;
use crate::module::{input_level, read_input, write_output, written, AudioUnit, Module};
use crate::state::is_deterministic;
use crate::utils::SchmittTrigger;
use crate::voltage::{is_pitch, lemma_pitch_is_unique, midi_to_voltage, Voltage};

verus! {

/// The number of steps of a sequence.
pub const SEQUENCE_LENGTH: usize = 8;

/// The note that every step of a new sequencer plays (A4).
pub const DEFAULT_NOTE: u8 = 69;

/// The step after `position`, going round after the last.
pub open spec fn next_step(position: int) -> int {
    (position + 1) % (SEQUENCE_LENGTH as int)
}

/// The step that the sequence is at after `edges` triggers.
pub open spec fn step_after(position: int, edges: nat) -> int {
    (position + edges) % (SEQUENCE_LENGTH as int)
}

/// The sequencer module: the notes of the sequence.
#[derive(Debug, Clone, Copy)]
pub struct Sequencer {
    /// The MIDI notes of the steps.
    pub notes: [u8; 8],
}

/// A sequencer at work: the notes, the detector of triggers, and the step
/// that is playing.
pub struct SequencerUnit {
    notes: [u8; 8],
    trigger: SchmittTrigger,
    position: usize,
}

/// A sequencer at work, as a value.
pub struct SequencerState {
    /// The MIDI notes of the steps.
    pub notes: Seq<u8>,
    /// The detector of triggers.
    pub trigger: SchmittTrigger,
    /// The step that is playing.
    pub position: int,
}

impl SequencerState {
    /// There are eight notes, and the step that is playing is one of the
    /// eight.
    pub open spec fn wf(self) -> bool {
        self.notes.len() == SEQUENCE_LENGTH && 0 <= self.position < SEQUENCE_LENGTH
    }

    /// The sequencer after a tick on which its trigger input is at `level`:
    /// a detected trigger moves it to the next step.
    pub open spec fn stepped(self, level: Voltage) -> Self {
        SequencerState {
            notes: self.notes,
            trigger: self.trigger.after(level),
            position: if self.trigger.fires(level) {
                next_step(self.position)
            } else {
                self.position
            },
        }
    }

    /// The sequencer after one tick for each of `levels`.
    pub open spec fn stepped_all(self, levels: Seq<Voltage>) -> Self
        decreases levels.len(),
    {
        if levels.len() == 0 {
            self
        } else {
            self.stepped_all(levels.drop_last()).stepped(levels.last())
        }
    }

    /// The note that is playing.
    pub open spec fn note(self) -> u8 {
        self.notes[self.position]
    }

    /// However the trigger input moves, the sequencer is at the step that
    /// lies as many steps after the one it started at as triggers were
    /// detected, going round after the last step.
    pub proof fn lemma_steps_with_edges(self, levels: Seq<Voltage>)
        requires
            0 <= self.position < SEQUENCE_LENGTH,
        ensures
            self.stepped_all(levels).position == step_after(self.position, self.trigger.edges(levels)),
            self.stepped_all(levels).trigger == self.trigger.after_all(levels),
            self.stepped_all(levels).notes == self.notes,
        decreases levels.len(),
    {
        if levels.len() > 0 {
            self.lemma_steps_with_edges(levels.drop_last());
        }
    }
}

impl View for SequencerUnit {
    type V = SequencerState;

    closed spec fn view(&self) -> SequencerState {
        SequencerState { notes: self.notes@, trigger: self.trigger, position: self.position as int }
    }
}

impl SequencerUnit {
    #[verifier::type_invariant]
    spec fn position_is_a_step(&self) -> bool {
        self.position < SEQUENCE_LENGTH
    }

    /// A unit that plays `notes`. It waits on the last step, so that the
    /// first trigger starts the sequence at its first note.
    pub fn new(notes: [u8; 8]) -> (unit: Self)
        ensures
            unit@ == (SequencerState {
                notes: notes@,
                trigger: SchmittTrigger::gate(),
                position: SEQUENCE_LENGTH - 1,
            }),
            unit@.wf(),
    {
        SequencerUnit { notes, trigger: SchmittTrigger::default(), position: SEQUENCE_LENGTH - 1 }
    }

    /// The step that is playing.
    pub fn position(&self) -> (position: usize)
        ensures
            position == self@.position,
            position < SEQUENCE_LENGTH,
    {
        proof {
            use_type_invariant(self);
        }
        self.position
    }

    /// The notes of the sequence.
    pub fn notes(&self) -> (notes: [u8; 8])
        ensures
            notes@ == self@.notes,
    {
        self.notes
    }

    /// Replaces the notes of the sequence; the step that is playing stays.
    pub fn set_notes(&mut self, notes: [u8; 8])
        ensures
            final(self)@ == (SequencerState { notes: notes@, ..old(self)@ }),
    {
        proof {
            use_type_invariant(&*self);
        }
        self.notes = notes;
    }
}

/// A sequencer is deterministic.
pub proof fn lemma_sequencer_is_deterministic()
    ensures
        is_deterministic::<SequencerUnit>(),
{
    assert forall|
        unit: SequencerUnit,
        inputs: Seq<Option<Voltage>>,
        outputs: Seq<Voltage>,
        a: SequencerUnit,
        x: Seq<Voltage>,
        b: SequencerUnit,
        y: Seq<Voltage>,
    |
        #![trigger unit.ticked(inputs, outputs, &a, x), unit.ticked(inputs, outputs, &b, y)]
        unit.ticked(inputs, outputs, &a, x) && unit.ticked(inputs, outputs, &b, y) implies a == b && x
        == y by {
        let p = choose|pitch: Voltage| #[trigger]
            is_pitch(pitch, a@.note() - 60) && x == written(outputs, Sequencer::V_OCT_OUT as int, pitch);
        let q = choose|pitch: Voltage| #[trigger]
            is_pitch(pitch, b@.note() - 60) && y == written(outputs, Sequencer::V_OCT_OUT as int, pitch);
        lemma_pitch_is_unique(p, q, a@.note() - 60);
        assert(a.notes@ == b.notes@);
        assert(a.notes == b.notes);
    }
}

impl AudioUnit for SequencerUnit {
    /// A sequencer does not depend on the sample rate.
    open spec fn retuned(&self, sample_rate: usize, next: &Self) -> bool {
        next@ == self@
    }

    /// The sequencer steps on a trigger at its trigger input and puts out the
    /// pitch of the note it is then at.
    open spec fn ticked(
        &self,
        inputs: Seq<Option<Voltage>>,
        outputs: Seq<Voltage>,
        next: &Self,
        emitted: Seq<Voltage>,
    ) -> bool {
        &&& next@ == self@.stepped(input_level(inputs, Sequencer::TRIGGER_IN as int))
        &&& next@.wf()
        &&& exists|pitch: Voltage| #[trigger]
            is_pitch(pitch, next@.note() - 60) && emitted == written(
                outputs,
                Sequencer::V_OCT_OUT as int,
                pitch,
            )
    }

    fn reset(&mut self, sample_rate: usize) {
    }

    fn tick(&mut self, inputs: &[Option<Voltage>], outputs: &mut [Voltage]) {
        proof {
            use_type_invariant(&*self);
        }
        let level = read_input(inputs, Sequencer::TRIGGER_IN);
        let mut trigger = self.trigger;
        let edge = trigger.detect(level);
        self.trigger = trigger;
        if edge {
            self.position = (self.position + 1) % SEQUENCE_LENGTH;
        }
        let pitch = midi_to_voltage(self.notes[self.position]);
        write_output(outputs, Sequencer::V_OCT_OUT, pitch);
        proof {
            assert(is_pitch(pitch, final(self)@.note() - 60));
        }
    }
}

impl Sequencer {
    /// The input channel that takes the triggers.
    pub const TRIGGER_IN: usize = 0;

    /// The output channel that carries the pitch, at one volt per octave.
    pub const V_OCT_OUT: usize = 0;

    /// A sequencer that plays `notes`.
    pub fn with_sequence(notes: [u8; 8]) -> (sequencer: Self)
        ensures
            sequencer.notes == notes,
    {
        Sequencer { notes }
    }
}

impl Default for Sequencer {
    /// A sequencer that plays the default note on every step.
    fn default() -> (sequencer: Self)
        ensures
            sequencer.notes@ == Seq::new(SEQUENCE_LENGTH as nat, |i: int| DEFAULT_NOTE),
    {
        let sequencer = Sequencer { notes: [DEFAULT_NOTE; 8] };
        assert(sequencer.notes@ =~= Seq::new(SEQUENCE_LENGTH as nat, |i: int| DEFAULT_NOTE));
        sequencer
    }
}

impl Module for Sequencer {
    type Unit = SequencerUnit;

    open spec fn has_inputs(&self, n: usize) -> bool {
        n == 1
    }

    open spec fn has_outputs(&self, n: usize) -> bool {
        n == 1
    }

    open spec fn creates(&self, unit: &SequencerUnit) -> bool {
        unit@ == (SequencerState {
            notes: self.notes@,
            trigger: SchmittTrigger::gate(),
            position: SEQUENCE_LENGTH - 1,
        })
    }

    fn inputs(&self) -> usize {
        1
    }

    fn outputs(&self) -> usize {
        1
    }

    fn create_audio_unit(&self) -> SequencerUnit {
        SequencerUnit::new(self.notes)
    }
}

} // verus!
