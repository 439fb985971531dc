//! The units of this library as one kind of unit, so that one rack can hold
//! a clock, a sequencer and a MIDI input next to units of another kind.

use vstd::prelude::*;
use crate::clock::{lemma_clock_is_deterministic, ClockUnit};
use crate::midi::{lemma_midi_in_is_deterministic, MidiInUnit};
use crate::module::AudioUnit;
use crate::sequencer::{lemma_sequencer_is_deterministic, SequencerUnit};
use crate::state::is_deterministic;
use crate::voltage::Voltage;

verus! {

/// A unit of one of the kinds of this library, or of the kind `X`.
pub enum Unit<X> {
    Clock(ClockUnit),
    Sequencer(SequencerUnit),
    MidiIn(MidiInUnit),
    Other(X),
}

impl<X: AudioUnit> AudioUnit for Unit<X> {
    /// A unit stays of its kind, and is reset as a unit of its kind is.
    open spec fn retuned(&self, sample_rate: usize, next: &Self) -> bool {
        match (*self, *next) {
            (Unit::Clock(a), Unit::Clock(b)) => a.retuned(sample_rate, &b),
            (Unit::Sequencer(a), Unit::Sequencer(b)) => a.retuned(sample_rate, &b),
            (Unit::MidiIn(a), Unit::MidiIn(b)) => a.retuned(sample_rate, &b),
            (Unit::Other(a), Unit::Other(b)) => a.retuned(sample_rate, &b),
            _ => false,
        }
    }

    /// A unit stays of its kind, and ticks as a unit of its kind does.
    open spec fn ticked(
        &self,
        inputs: Seq<Option<Voltage>>,
        outputs: Seq<Voltage>,
        next: &Self,
        emitted: Seq<Voltage>,
    ) -> bool {
        match (*self, *next) {
            (Unit::Clock(a), Unit::Clock(b)) => a.ticked(inputs, outputs, &b, emitted),
            (Unit::Sequencer(a), Unit::Sequencer(b)) => a.ticked(inputs, outputs, &b, emitted),
            (Unit::MidiIn(a), Unit::MidiIn(b)) => a.ticked(inputs, outputs, &b, emitted),
            (Unit::Other(a), Unit::Other(b)) => a.ticked(inputs, outputs, &b, emitted),
            _ => false,
        }
    }

    fn reset(&mut self, sample_rate: usize) {
        match self {
            Unit::Clock(unit) => unit.reset(sample_rate),
            Unit::Sequencer(unit) => unit.reset(sample_rate),
            Unit::MidiIn(unit) => unit.reset(sample_rate),
            Unit::Other(unit) => unit.reset(sample_rate),
        }
    }

    fn tick(&mut self, inputs: &[Option<Voltage>], outputs: &mut [Voltage]) {
        match self {
            Unit::Clock(unit) => unit.tick(inputs, outputs),
            Unit::Sequencer(unit) => unit.tick(inputs, outputs),
            Unit::MidiIn(unit) => unit.tick(inputs, outputs),
            Unit::Other(unit) => unit.tick(inputs, outputs),
        }
    }
}

/// The units are deterministic where those of the other kind are.
pub proof fn lemma_units_are_deterministic<X: AudioUnit>()
    requires
        is_deterministic::<X>(),
    ensures
        is_deterministic::<Unit<X>>(),
{
    lemma_clock_is_deterministic();
    lemma_sequencer_is_deterministic();
    lemma_midi_in_is_deterministic();
    assert forall|
        unit: Unit<X>,
        inputs: Seq<Option<Voltage>>,
        outputs: Seq<Voltage>,
        a: Unit<X>,
        x: Seq<Voltage>,
        b: Unit<X>,
        y: Seq<Voltage>,
    |
        #![trigger unit.ticked(inputs, outputs, &a, x), unit.ticked(inputs, outputs, &b, y)]
        unit.ticked(inputs, outputs, &a, x) && unit.ticked(inputs, outputs, &b, y) implies a == b && x
        == y by {
        match (unit, a, b) {
            (Unit::Clock(u), Unit::Clock(p), Unit::Clock(q)) => {
                assert(u.ticked(inputs, outputs, &p, x) && u.ticked(inputs, outputs, &q, y));
            },
            (Unit::Sequencer(u), Unit::Sequencer(p), Unit::Sequencer(q)) => {
                assert(u.ticked(inputs, outputs, &p, x) && u.ticked(inputs, outputs, &q, y));
            },
            (Unit::MidiIn(u), Unit::MidiIn(p), Unit::MidiIn(q)) => {
                assert(u.ticked(inputs, outputs, &p, x) && u.ticked(inputs, outputs, &q, y));
            },
            (Unit::Other(u), Unit::Other(p), Unit::Other(q)) => {
                assert(u.ticked(inputs, outputs, &p, x) && u.ticked(inputs, outputs, &q, y));
            },
            _ => {},
        }
    }
}

} // verus!
