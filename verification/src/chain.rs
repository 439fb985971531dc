//! A clock that drives a sequencer: what the sequencer has done by the time
//! the clock has run through its first period.

use vstd::prelude::*;
use crate::clock::{high_samples, Clock, ClockState, SHORTEST_PERIOD};
use crate::module::{AudioUnit, ModuleHandle, ModuleInput, ModuleOutput};
use crate::sequencer::{Sequencer, SequencerState, SEQUENCE_LENGTH};
use crate::state::{is_run, lemma_run_keeps_patch, RackState};
use crate::units::Unit;
use crate::utils::SchmittTrigger;
use crate::voltage::{is_pitch, ZERO_VOLTS};

verus! {

/// Whether the unit `handle` of `rack` is a clock in the state `clock`.
pub open spec fn holds_clock<X: AudioUnit>(rack: RackState<Unit<X>>, handle: ModuleHandle, clock: ClockState) -> bool {
    rack.units.contains_key(handle) && (rack.units[handle].unit matches Unit::Clock(unit) && unit@ == clock)
}

/// Whether the unit `handle` of `rack` is a sequencer in the state
/// `sequencer`.
pub open spec fn holds_sequencer<X: AudioUnit>(
    rack: RackState<Unit<X>>,
    handle: ModuleHandle,
    sequencer: SequencerState,
) -> bool {
    rack.units.contains_key(handle) && (rack.units[handle].unit matches Unit::Sequencer(unit) && unit@
        == sequencer)
}

/// The output of a clock that carries the pulses.
pub open spec fn pulses(clock: ModuleHandle) -> ModuleOutput {
    ModuleOutput { module: clock, channel: Clock::TRIGGER_OUT }
}

/// The input of a sequencer that takes the triggers.
pub open spec fn triggers(sequencer: ModuleHandle) -> ModuleInput {
    ModuleInput { module: sequencer, channel: Sequencer::TRIGGER_IN }
}

/// The output of a sequencer that carries the pitch.
pub open spec fn pitch_of(sequencer: ModuleHandle) -> ModuleOutput {
    ModuleOutput { module: sequencer, channel: Sequencer::V_OCT_OUT }
}

/// A clock that has just been made.
pub open spec fn new_clock(period: usize, width: usize) -> ClockState {
    ClockState { period, width, ticks: 0 }
}

/// A sequencer that has just been made.
pub open spec fn new_sequencer(notes: Seq<u8>) -> SequencerState {
    SequencerState { notes, trigger: SchmittTrigger::gate(), position: SEQUENCE_LENGTH - 1 }
}

/// The clock after `k` ticks, for `k` up to the period.
pub open spec fn clock_after(period: usize, width: usize, k: int) -> ClockState {
    ClockState { period, width, ticks: if k < period { k } else { 0 } }
}

/// The sequencer after `k` ticks, for `k` up to the period of the clock that
/// drives it: the pulse that the clock puts out on the first tick reaches
/// the sequencer on the second, and moves it from the last step, on which it
/// waits, to the first; the trigger stays active for as long as the pulse is
/// high.
pub open spec fn sequencer_after(notes: Seq<u8>, highs: int, k: int) -> SequencerState {
    SequencerState {
        notes,
        trigger: SchmittTrigger { active: 2 <= k <= highs, ..SchmittTrigger::gate() },
        position: if k >= 2 { 0 } else { SEQUENCE_LENGTH - 1 },
    }
}

/// Whether `rack` is a patch in which the clock `clock` drives the sequencer
/// `sequencer`: both have just been made and put in, and the cable at index
/// `i`, from the pulses of the clock to the trigger input of the sequencer,
/// is the last one into that input.
pub open spec fn clock_drives_sequencer<X: AudioUnit>(
    rack: RackState<Unit<X>>,
    clock: ModuleHandle,
    sequencer: ModuleHandle,
    i: int,
    period: usize,
    width: usize,
    notes: Seq<u8>,
) -> bool {
    &&& rack.wf()
    &&& notes.len() == SEQUENCE_LENGTH
    &&& holds_clock(rack, clock, new_clock(period, width))
    &&& rack.has_output(pulses(clock))
    &&& rack.level(pulses(clock)) == ZERO_VOLTS
    &&& holds_sequencer(rack, sequencer, new_sequencer(notes))
    &&& rack.has_output(pitch_of(sequencer))
    &&& 0 <= i < rack.cables.len()
    &&& rack.cables[i] == (pulses(clock), triggers(sequencer))
    &&& forall|j: int| i < j < rack.cables.len() ==> (#[trigger] rack.cables[j]).1 != triggers(sequencer)
}

/// A clock that is high for half of a period of four samples or more is
/// high for two samples or more.
pub proof fn lemma_half_width_is_wide_enough(period: usize)
    requires
        period >= 4,
    ensures
        high_samples(period, (period / 2) as usize) == period / 2,
        high_samples(period, (period / 2) as usize) >= 2,
{
}

/// Where a clock with pulses of two samples or more drives a sequencer, the
/// sequencer has stepped exactly once by the time the clock has run through
/// its first period: it waits on the last step through the first tick, is on
/// the first step from the second tick on, and puts out the pitch of the
/// note of the step it is on. What else is in the rack, and how it is
/// patched, does not matter.
pub proof fn lemma_clock_steps_sequencer_once<X: AudioUnit>(
    run: Seq<RackState<Unit<X>>>,
    clock: ModuleHandle,
    sequencer: ModuleHandle,
    i: int,
    period: usize,
    width: usize,
    notes: Seq<u8>,
    k: int,
)
    requires
        is_run(run),
        0 <= k < run.len(),
        k <= period,
        period >= SHORTEST_PERIOD,
        high_samples(period, width) >= 2,
        clock_drives_sequencer(run[0], clock, sequencer, i, period, width, notes),
    ensures
        holds_clock(run[k], clock, clock_after(period, width, k)),
        k >= 1 ==> run[k].level(pulses(clock)) == clock_after(period, width, k).level(),
        holds_sequencer(run[k], sequencer, sequencer_after(notes, high_samples(period, width), k)),
        run[k].has_output(pitch_of(sequencer)),
        k >= 1 ==> is_pitch(
            run[k].level(pitch_of(sequencer)),
            notes[sequencer_after(notes, high_samples(period, width), k).position] - 60,
        ),
    decreases k,
{
    if k > 0 {
        lemma_clock_steps_sequencer_once(run, clock, sequencer, i, period, width, notes, k - 1);
        lemma_run_keeps_patch(run, k - 1);
        let before = run[k - 1];
        let after = run[k];
        let highs = high_samples(period, width);
        assert(before.steps_to(after));
        assert(before.cables[i] == (pulses(clock), triggers(sequencer)));
        assert(before.cable_fits(before.cables[i]));
        assert(before.units.contains_key(clock));
        assert(before.units.contains_key(sequencer));

        // The clock moves on by one sample.
        let p = period as int;
        if k < period {
            vstd::arithmetic::div_mod::lemma_small_mod(k as nat, p as nat);
        } else {
            vstd::arithmetic::div_mod::lemma_mod_self_0(p);
        }
        assert(clock_after(period, width, k - 1).stepped() == clock_after(period, width, k));
        assert(after.level(pulses(clock)) == clock_after(period, width, k).level());

        // The sequencer reads what the clock put out one tick before.
        before.lemma_fed_by(before.cables.len(), i);
        let gate = before.level(pulses(clock));
        let inputs = before.patched_inputs(sequencer);
        assert(inputs[0] == before.delivered(triggers(sequencer)));
        assert(inputs[0] == Some(gate));
        let was = sequencer_after(notes, highs, k - 1);
        let is = sequencer_after(notes, highs, k);
        assert(was.stepped(gate) == is) by {
            if k == 1 {
                assert(gate == ZERO_VOLTS);
            } else {
                assert(gate == clock_after(period, width, k - 1).level());
            }
        }
    }
}

/// Where a clock with pulses of two samples or more drives a sequencer,
/// then after exactly one period of the clock the sequencer has stepped
/// exactly once and plays its first note.
pub proof fn lemma_one_step_per_period<X: AudioUnit>(
    run: Seq<RackState<Unit<X>>>,
    clock: ModuleHandle,
    sequencer: ModuleHandle,
    i: int,
    period: usize,
    width: usize,
    notes: Seq<u8>,
)
    requires
        is_run(run),
        period < run.len(),
        period >= SHORTEST_PERIOD,
        high_samples(period, width) >= 2,
        clock_drives_sequencer(run[0], clock, sequencer, i, period, width, notes),
    ensures
        forall|k: int|
            0 <= k <= period ==> holds_sequencer(
                #[trigger] run[k],
                sequencer,
                sequencer_after(notes, high_samples(period, width), k),
            ),
        sequencer_after(notes, high_samples(period, width), period as int).position == 0,
        is_pitch(run[period as int].level(pitch_of(sequencer)), notes[0] - 60),
{
    assert forall|k: int| 0 <= k <= period implies holds_sequencer(
        #[trigger] run[k],
        sequencer,
        sequencer_after(notes, high_samples(period, width), k),
    ) by {
        lemma_clock_steps_sequencer_once(run, clock, sequencer, i, period, width, notes, k);
    }
    lemma_clock_steps_sequencer_once(run, clock, sequencer, i, period, width, notes, period as int);
}

} // verus!
