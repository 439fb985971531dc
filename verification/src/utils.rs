//! Helpers that several units share: the detection of triggers and the
//! generation of timed pulses.

use vstd::prelude::*;
use crate::voltage::{at_least, reaches, Voltage, CV_VOLTS, GATE_RESET_VOLTS, GATE_THRESHOLD_VOLTS, ZERO_VOLTS};

verus! {

/// A comparator with hysteresis, for detecting triggers.
///
/// It reports a rising edge when the signal gets to the trigger threshold,
/// and is armed again only once the signal has dropped under the reset
/// threshold, so that a noisy or slowly changing signal triggers once.
#[derive(Debug, Clone, Copy)]
pub struct SchmittTrigger {
    /// The level at which an armed trigger fires.
    pub trigger_threshold: Voltage,
    /// The level under which a trigger that has fired is armed again.
    pub reset_threshold: Voltage,
    /// Whether the trigger has fired and is not yet armed again.
    pub active: bool,
}

impl SchmittTrigger {
    /// The trigger for gate signals: it fires where a gate counts as high.
    pub open spec fn gate() -> Self {
        SchmittTrigger {
            trigger_threshold: GATE_THRESHOLD_VOLTS,
            reset_threshold: GATE_RESET_VOLTS,
            active: false,
        }
    }

    /// Whether the level `v` makes the trigger fire.
    pub open spec fn fires(self, v: Voltage) -> bool {
        !self.active && reaches(v, self.trigger_threshold)
    }

    /// The trigger after it has seen the level `v`.
    pub open spec fn after(self, v: Voltage) -> Self {
        SchmittTrigger {
            active: if self.active {
                reaches(v, self.reset_threshold)
            } else {
                reaches(v, self.trigger_threshold)
            },
            ..self
        }
    }

    /// The trigger after it has seen `levels`, one after the other.
    pub open spec fn after_all(self, levels: Seq<Voltage>) -> Self
        decreases levels.len(),
    {
        if levels.len() == 0 {
            self
        } else {
            self.after_all(levels.drop_last()).after(levels.last())
        }
    }

    /// The number of times the trigger fires while it sees `levels`.
    pub open spec fn edges(self, levels: Seq<Voltage>) -> nat
        decreases levels.len(),
    {
        if levels.len() == 0 {
            0
        } else {
            let before = levels.drop_last();
            if self.after_all(before).fires(levels.last()) {
                self.edges(before) + 1
            } else {
                self.edges(before)
            }
        }
    }

    /// A trigger with the given thresholds, armed.
    pub fn new(trigger_threshold: Voltage, reset_threshold: Voltage) -> (trigger: Self)
        ensures
            trigger == (SchmittTrigger { trigger_threshold, reset_threshold, active: false }),
    {
        SchmittTrigger { trigger_threshold, reset_threshold, active: false }
    }

    /// Takes in one sample and tells whether a new trigger was detected.
    pub fn detect(&mut self, v: Voltage) -> (edge: bool)
        ensures
            edge == old(self).fires(v),
            *final(self) == old(self).after(v),
    {
        if self.active {
            self.active = at_least(v, self.reset_threshold);
            false
        } else {
            self.active = at_least(v, self.trigger_threshold);
            self.active
        }
    }

    /// Seeing levels changes whether the trigger is active, never its thresholds.
    pub proof fn lemma_thresholds_stay(self, levels: Seq<Voltage>)
        ensures
            self.after_all(levels).trigger_threshold == self.trigger_threshold,
            self.after_all(levels).reset_threshold == self.reset_threshold,
        decreases levels.len(),
    {
        if levels.len() > 0 {
            self.lemma_thresholds_stay(levels.drop_last());
        }
    }

    /// A trigger that has fired does not fire again while the signal stays
    /// at or above the reset threshold, however far it rises.
    pub proof fn lemma_fires_once(self, levels: Seq<Voltage>)
        requires
            self.active,
            forall|i: int| 0 <= i < levels.len() ==> reaches(#[trigger] levels[i], self.reset_threshold),
        ensures
            self.edges(levels) == 0,
            self.after_all(levels).active,
        decreases levels.len(),
    {
        if levels.len() > 0 {
            self.lemma_fires_once(levels.drop_last());
            self.lemma_thresholds_stay(levels.drop_last());
            assert(reaches(levels[levels.len() - 1], self.reset_threshold));
        }
    }

    /// An armed trigger fires on the first sample at or above the trigger
    /// threshold, and on that sample only if the ones that follow stay at or
    /// above the reset threshold.
    pub proof fn lemma_fires_on_rise(self, v: Voltage, held: Seq<Voltage>)
        requires
            !self.active,
            reaches(v, self.trigger_threshold),
            forall|i: int| 0 <= i < held.len() ==> reaches(#[trigger] held[i], self.reset_threshold),
        ensures
            self.fires(v),
            self.edges(seq![v] + held) == 1,
        decreases held.len(),
    {
        let all = seq![v] + held;
        if held.len() == 0 {
            assert(all.drop_last() =~= Seq::<Voltage>::empty());
            assert(self.edges(all.drop_last()) == 0);
            assert(self.after_all(all.drop_last()) == self);
        } else {
            assert(all.drop_last() =~= seq![v] + held.drop_last());
            self.lemma_fires_on_rise(v, held.drop_last());
            self.lemma_active_after_rise(v, held.drop_last());
        }
    }

    /// After a rise, the trigger stays active while the signal stays at or
    /// above the reset threshold.
    pub proof fn lemma_active_after_rise(self, v: Voltage, held: Seq<Voltage>)
        requires
            !self.active,
            reaches(v, self.trigger_threshold),
            forall|i: int| 0 <= i < held.len() ==> reaches(#[trigger] held[i], self.reset_threshold),
        ensures
            self.after_all(seq![v] + held).active,
        decreases held.len(),
    {
        let all = seq![v] + held;
        if held.len() == 0 {
            assert(all.drop_last() =~= Seq::<Voltage>::empty());
            assert(self.after_all(all.drop_last()) == self);
        } else {
            assert(all.drop_last() =~= seq![v] + held.drop_last());
            self.lemma_active_after_rise(v, held.drop_last());
            self.lemma_thresholds_stay(all.drop_last());
            assert(all.last() == held[held.len() - 1]);
        }
    }
}

impl Default for SchmittTrigger {
    /// The trigger for gates.
    fn default() -> (trigger: Self)
        ensures
            trigger == SchmittTrigger::gate(),
    {
        SchmittTrigger::new(GATE_THRESHOLD_VOLTS, GATE_RESET_VOLTS)
    }
}

/// A generator of pulses of a fixed length, such as triggers.
#[derive(Debug, Clone, Copy)]
pub struct PulseGenerator {
    /// The length of a pulse, in samples.
    pub duration: usize,
    /// The number of samples for which the current pulse is still high.
    pub samples_remaining: usize,
}

impl PulseGenerator {
    /// A generator of pulses that stay high for `duration` samples. No pulse
    /// is under way.
    pub fn with_duration(duration: usize) -> (pulse: Self)
        ensures
            pulse == (PulseGenerator { duration, samples_remaining: 0 }),
    {
        PulseGenerator { duration, samples_remaining: 0 }
    }

    /// Sets the length of the pulses to come, in samples. A pulse that is
    /// under way is not cut short.
    pub fn reset(&mut self, duration: usize)
        ensures
            *final(self) == (PulseGenerator { duration, ..*old(self) }),
    {
        self.duration = duration;
    }

    /// Starts a new pulse.
    pub fn trigger(&mut self)
        ensures
            *final(self) == (PulseGenerator { samples_remaining: old(self).duration, ..*old(self) }),
    {
        self.samples_remaining = self.duration;
    }

    /// Advances by one sample: the control voltage peak while a pulse is
    /// under way, and zero volts otherwise.
    pub fn tick(&mut self) -> (level: Voltage)
        ensures
            level == (if old(self).samples_remaining > 0 { CV_VOLTS } else { ZERO_VOLTS }),
            final(self).duration == old(self).duration,
            final(self).samples_remaining == (if old(self).samples_remaining > 0 {
                old(self).samples_remaining - 1
            } else {
                0
            }),
    {
        if self.samples_remaining > 0 {
            self.samples_remaining -= 1;
            CV_VOLTS
        } else {
            ZERO_VOLTS
        }
    }
}

} // verus!
