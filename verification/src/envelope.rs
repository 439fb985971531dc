//! The stages of an ADSR envelope: which stage the envelope is in, how long
//! it stays there, and what moves it on.
//!
//! The envelope's level is a number that its owner keeps; this module decides
//! when a stage is entered, and each entry tells the owner what the level has
//! to do from then on.

use vstd::prelude::*;
use crate::utils::SchmittTrigger;
use crate::voltage::{below, falls_short, Voltage, GATE_RESET_VOLTS, GATE_THRESHOLD_VOLTS};

verus! {

/// A stage of the envelope. On entry the owner of the level sets the step
/// that is added to the level on every sample, and in two stages the level
/// itself.
#[derive(Copy, Clone, Debug, PartialEq, Eq, Structural)]
pub enum Stage {
    /// The level climbs from where it is to full level within the attack time.
    Attack,
    /// The level moves from where it is to the sustain level within the decay
    /// time.
    Decay,
    /// The level is set to the sustain level and stays.
    Sustain,
    /// The level falls from where it is to zero within the release time.
    Release,
    /// The level is set to zero and stays.
    Silent,
}

/// The lengths of the three timed stages, in samples.
#[derive(Copy, Clone, Debug, PartialEq, Eq, Structural)]
pub struct StageTimes {
    pub attack: usize,
    pub decay: usize,
    pub release: usize,
}

/// The stages entered on one sample, in the order of entry: the one that the
/// gate forced, then the one that followed a stage that had run its time.
#[derive(Copy, Clone, Debug, PartialEq, Eq, Structural)]
pub struct Entered {
    pub by_gate: Option<Stage>,
    pub by_time: Option<Stage>,
}

/// An envelope, as a value.
pub struct EnvelopeState {
    /// The detector of rising gates.
    pub trigger: SchmittTrigger,
    /// The stage that the envelope is in.
    pub stage: Stage,
    /// The number of samples that a timed stage still has to run.
    pub samples_remaining: Option<usize>,
}

/// Whether a stage runs for a set time.
pub open spec fn is_timed(stage: Stage) -> bool {
    stage == Stage::Attack || stage == Stage::Decay || stage == Stage::Release
}

/// The time that a stage runs for.
pub open spec fn time_of(stage: Stage, times: StageTimes) -> Option<usize> {
    match stage {
        Stage::Attack => Some(times.attack),
        Stage::Decay => Some(times.decay),
        Stage::Release => Some(times.release),
        Stage::Sustain => None,
        Stage::Silent => None,
    }
}

/// The stage that follows a timed stage that has run its time.
pub open spec fn successor(stage: Stage) -> Stage {
    match stage {
        Stage::Attack => Stage::Decay,
        Stage::Decay => Stage::Sustain,
        Stage::Release => Stage::Silent,
        Stage::Sustain => Stage::Sustain,
        Stage::Silent => Stage::Silent,
    }
}

impl EnvelopeState {
    /// Exactly the timed stages have a time left to run, and the trigger
    /// fires where a gate counts as high and is armed again under the reset
    /// level.
    pub open spec fn wf(self) -> bool {
        &&& self.samples_remaining is Some <==> is_timed(self.stage)
        &&& self.trigger.trigger_threshold == GATE_THRESHOLD_VOLTS
        &&& self.trigger.reset_threshold == GATE_RESET_VOLTS
    }

    /// The envelope before the first gate: silent, with the trigger armed.
    pub open spec fn silent() -> Self {
        EnvelopeState { trigger: SchmittTrigger::gate(), stage: Stage::Silent, samples_remaining: None }
    }

    /// The envelope at the start of `stage`.
    pub open spec fn entering(self, stage: Stage, times: StageTimes) -> Self {
        EnvelopeState { stage, samples_remaining: time_of(stage, times), ..self }
    }

    /// The stage that a gate at the level `gate` forces: a rising gate
    /// forces the attack, whatever the stage; a gate under the threshold
    /// forces the release of an envelope that is attacking, decaying or
    /// sustaining.
    pub open spec fn forced(self, gate: Voltage) -> Option<Stage> {
        if self.trigger.fires(gate) {
            Some(Stage::Attack)
        } else if falls_short(gate, GATE_THRESHOLD_VOLTS) && (self.stage == Stage::Attack || self.stage
            == Stage::Decay || self.stage == Stage::Sustain) {
            Some(Stage::Release)
        } else {
            None
        }
    }

    /// The envelope after its gate has had a say.
    pub open spec fn gated(self, gate: Voltage, times: StageTimes) -> Self {
        let seen = EnvelopeState { trigger: self.trigger.after(gate), ..self };
        match self.forced(gate) {
            Some(stage) => seen.entering(stage, times),
            None => seen,
        }
    }

    /// The stage that follows because the stage the envelope is in has run
    /// its time.
    pub open spec fn due(self) -> Option<Stage> {
        if self.samples_remaining == Some(0usize) {
            Some(successor(self.stage))
        } else {
            None
        }
    }

    /// The envelope after the time has had a say: a stage that has run its
    /// time gives way to the next, and one that has not has a sample less to
    /// run.
    pub open spec fn timed(self, times: StageTimes) -> Self {
        match self.samples_remaining {
            Some(samples) => if samples == 0 {
                self.entering(successor(self.stage), times)
            } else {
                EnvelopeState { samples_remaining: Some((samples - 1) as usize), ..self }
            },
            None => self,
        }
    }

    /// The envelope after one sample with its gate at `gate`.
    pub open spec fn stepped(self, gate: Voltage, times: StageTimes) -> Self {
        self.gated(gate, times).timed(times)
    }

    /// The stages entered on one sample with its gate at `gate`.
    pub open spec fn entered(self, gate: Voltage, times: StageTimes) -> Entered {
        Entered { by_gate: self.forced(gate), by_time: self.gated(gate, times).due() }
    }

    /// The envelope after one sample for each of `gates`.
    pub open spec fn stepped_all(self, gates: Seq<Voltage>, times: StageTimes) -> Self
        decreases gates.len(),
    {
        if gates.len() == 0 {
            self
        } else {
            self.stepped_all(gates.drop_last(), times).stepped(gates.last(), times)
        }
    }

    /// A sample keeps a consistent envelope consistent.
    pub proof fn lemma_step_keeps_wf(self, gate: Voltage, times: StageTimes)
        requires
            self.wf(),
        ensures
            self.stepped(gate, times).wf(),
            self.stepped(gate, times).trigger == self.trigger.after(gate),
    {
    }

    /// A rising gate forces the attack whatever the stage, also while the
    /// envelope sustains. The attack is the first stage entered on that
    /// sample, and entering it sets no level: the level goes on from where it
    /// is. The envelope is then attacking, or already decaying where the
    /// attack time is zero.
    pub proof fn lemma_rise_forces_attack(self, gate: Voltage, times: StageTimes)
        requires
            self.wf(),
            self.trigger.fires(gate),
        ensures
            self.entered(gate, times).by_gate == Some(Stage::Attack),
            times.attack > 0 ==> self.stepped(gate, times).stage == Stage::Attack && self.stepped(
                gate,
                times,
            ).samples_remaining == Some((times.attack - 1) as usize) && self.entered(gate, times).by_time
                is None,
            times.attack == 0 ==> self.stepped(gate, times).stage == Stage::Decay && self.entered(
                gate,
                times,
            ).by_time == Some(Stage::Decay),
    {
    }

    /// A gate that drops under the threshold forces the release of an
    /// envelope that is attacking, decaying or sustaining.
    pub proof fn lemma_drop_forces_release(self, gate: Voltage, times: StageTimes)
        requires
            self.wf(),
            falls_short(gate, GATE_THRESHOLD_VOLTS),
            self.stage == Stage::Attack || self.stage == Stage::Decay || self.stage == Stage::Sustain,
        ensures
            self.entered(gate, times).by_gate == Some(Stage::Release),
            times.release > 0 ==> self.stepped(gate, times).stage == Stage::Release && self.stepped(
                gate,
                times,
            ).samples_remaining == Some((times.release - 1) as usize),
            times.release == 0 ==> self.stepped(gate, times).stage == Stage::Silent && self.entered(
                gate,
                times,
            ).by_time == Some(Stage::Silent),
    {
    }

    /// While its gate stays under the threshold, a releasing envelope counts
    /// its time down and does nothing else.
    pub proof fn lemma_release_counts_down(self, gates: Seq<Voltage>, times: StageTimes)
        requires
            self.wf(),
            self.stage == Stage::Release,
            gates.len() <= self.samples_remaining.unwrap(),
            forall|i: int| 0 <= i < gates.len() ==> falls_short(#[trigger] gates[i], GATE_THRESHOLD_VOLTS),
        ensures
            self.stepped_all(gates, times).stage == Stage::Release,
            self.stepped_all(gates, times).samples_remaining == Some(
                (self.samples_remaining.unwrap() - gates.len()) as usize,
            ),
            self.stepped_all(gates, times).trigger == self.trigger.after_all(gates),
        decreases gates.len(),
    {
        if gates.len() > 0 {
            let before = gates.drop_last();
            self.lemma_release_counts_down(before, times);
            self.trigger.lemma_thresholds_stay(before);
            assert(falls_short(gates[gates.len() - 1], GATE_THRESHOLD_VOLTS));
        }
    }

    /// Held under the threshold for the whole release time, a gate lets the
    /// release run out: on the sample after the last of its time the envelope
    /// enters the silent stage, which sets the level to zero, and is silent.
    pub proof fn lemma_release_runs_out(self, gates: Seq<Voltage>, times: StageTimes)
        requires
            self.wf(),
            self.stage == Stage::Release,
            gates.len() == self.samples_remaining.unwrap() + 1,
            forall|i: int| 0 <= i < gates.len() ==> falls_short(#[trigger] gates[i], GATE_THRESHOLD_VOLTS),
        ensures
            self.stepped_all(gates, times).stage == Stage::Silent,
            self.stepped_all(gates, times).samples_remaining is None,
            self.stepped_all(gates.drop_last(), times).entered(gates.last(), times) == (Entered {
                by_gate: None,
                by_time: Some(Stage::Silent),
            }),
    {
        let before = gates.drop_last();
        self.lemma_release_counts_down(before, times);
        self.trigger.lemma_thresholds_stay(before);
        assert(falls_short(gates[gates.len() - 1], GATE_THRESHOLD_VOLTS));
    }
}

/// The stages of an envelope at work.
pub struct Envelope {
    trigger: SchmittTrigger,
    stage: Stage,
    samples_remaining: Option<usize>,
}

impl View for Envelope {
    type V = EnvelopeState;

    closed spec fn view(&self) -> EnvelopeState {
        EnvelopeState { trigger: self.trigger, stage: self.stage, samples_remaining: self.samples_remaining }
    }
}

impl Envelope {
    #[verifier::type_invariant]
    spec fn timed_stages_have_time(&self) -> bool {
        &&& self.samples_remaining is Some <==> is_timed(self.stage)
        &&& self.trigger.trigger_threshold == GATE_THRESHOLD_VOLTS
        &&& self.trigger.reset_threshold == GATE_RESET_VOLTS
    }

    /// A silent envelope.
    pub fn new() -> (envelope: Self)
        ensures
            envelope@ == EnvelopeState::silent(),
            envelope@.wf(),
    {
        Envelope { trigger: SchmittTrigger::default(), stage: Stage::Silent, samples_remaining: None }
    }

    /// The stage that the envelope is in.
    pub fn stage(&self) -> (stage: Stage)
        ensures
            stage == self@.stage,
            self@.wf(),
    {
        proof {
            use_type_invariant(self);
        }
        self.stage
    }

    /// The number of samples that the stage still has to run, for a timed
    /// stage.
    pub fn samples_remaining(&self) -> (samples: Option<usize>)
        ensures
            samples == self@.samples_remaining,
    {
        self.samples_remaining
    }

    /// Advances the envelope by one sample with its gate at `gate` and tells
    /// which stages were entered. `times` are the lengths that the timed
    /// stages have at this moment.
    pub fn advance(&mut self, gate: Voltage, times: StageTimes) -> (entered: Entered)
        ensures
            old(self)@.wf(),
            final(self)@.wf(),
            final(self)@ == old(self)@.stepped(gate, times),
            entered == old(self)@.entered(gate, times),
    {
        proof {
            use_type_invariant(&*self);
        }
        let mut trigger = self.trigger;
        let rise = trigger.detect(gate);
        let sustained = match self.stage {
            Stage::Attack => true,
            Stage::Decay => true,
            Stage::Sustain => true,
            Stage::Release => false,
            Stage::Silent => false,
        };
        let by_gate = if rise {
            Some(Stage::Attack)
        } else if below(gate, GATE_THRESHOLD_VOLTS) && sustained {
            Some(Stage::Release)
        } else {
            None
        };
        let (stage, remaining) = match by_gate {
            Some(Stage::Attack) => (Stage::Attack, Some(times.attack)),
            Some(_) => (Stage::Release, Some(times.release)),
            None => (self.stage, self.samples_remaining),
        };
        let (by_time, stage, remaining) = match remaining {
            Some(samples) => if samples == 0 {
                match stage {
                    Stage::Attack => (Some(Stage::Decay), Stage::Decay, Some(times.decay)),
                    Stage::Decay => (Some(Stage::Sustain), Stage::Sustain, None),
                    _ => (Some(Stage::Silent), Stage::Silent, None),
                }
            } else {
                (None, stage, Some(samples - 1))
            },
            None => (None, stage, None),
        };
        *self = Envelope { trigger, stage, samples_remaining: remaining };
        Entered { by_gate, by_time }
    }
}

} // verus!
