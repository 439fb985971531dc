//! A clock: a train of pulses with a period and a pulse width, both counted
//! in samples.

use vstd::prelude::*;
use crate::module::{write_output, written, AudioUnit, Module};
use crate::state::is_deterministic;
use crate::voltage::{Voltage, CV_VOLTS, ZERO_VOLTS};

verus! {

/// The shortest period that a clock can run at: a pulse has at least one
/// high sample and at least two low ones.
pub const SHORTEST_PERIOD: usize = 3;

/// The number of high samples in a period of `period` samples for a pulse
/// width of `width`: the width, but at least one sample and at least two
/// short of the period.
pub open spec fn high_samples(period: usize, width: usize) -> int {
    if width < 1 {
        1
    } else if width > period - 2 {
        period - 2
    } else {
        width as int
    }
}

/// The clock module: the period and the pulse width of its pulses.
#[derive(Debug, Clone, Copy)]
pub struct Clock {
    /// The number of samples from one pulse to the next.
    pub period: usize,
    /// The number of samples for which a pulse is high.
    pub width: usize,
}

/// A clock at work.
pub struct ClockUnit {
    period: usize,
    width: usize,
    ticks: usize,
}

/// A clock at work, as a value.
pub struct ClockState {
    /// The number of samples from one pulse to the next.
    pub period: usize,
    /// The number of samples for which a pulse is high.
    pub width: usize,
    /// The place within the period.
    pub ticks: int,
}

impl ClockState {
    /// Whether the clock runs: one with a period under the shortest stands
    /// still, and so does one that was never given a period.
    pub open spec fn runs(self) -> bool {
        self.period >= SHORTEST_PERIOD
    }

    /// The clock after one tick: a running clock moves on by one sample and
    /// starts over at the end of the period.
    pub open spec fn stepped(self) -> Self {
        if self.runs() {
            ClockState { ticks: (self.ticks + 1) % (self.period as int), ..self }
        } else {
            self
        }
    }

    /// The clock after `n` ticks.
    pub open spec fn stepped_by(self, n: nat) -> Self
        decreases n,
    {
        if n == 0 {
            self
        } else {
            self.stepped_by((n - 1) as nat).stepped()
        }
    }

    /// Whether the clock puts out a high level: a running clock does for the
    /// first samples of each period, as many as the width asks for.
    pub open spec fn high(self) -> bool {
        self.runs() && self.ticks < high_samples(self.period, self.width)
    }

    /// The level that the clock puts out.
    pub open spec fn level(self) -> Voltage {
        if self.high() {
            CV_VOLTS
        } else {
            ZERO_VOLTS
        }
    }

    /// After `n` ticks a running clock is `n` samples further on in its
    /// period.
    pub proof fn lemma_place_after(self, n: nat)
        requires
            self.runs(),
            0 <= self.ticks,
            n > 0 || self.ticks < self.period,
        ensures
            self.stepped_by(n).ticks == (self.ticks + n) % (self.period as int),
            self.stepped_by(n).period == self.period,
            self.stepped_by(n).width == self.width,
        decreases n,
    {
        let p = self.period as int;
        if n == 0 {
            vstd::arithmetic::div_mod::lemma_small_mod(self.ticks as nat, p as nat);
        } else if n == 1 {
            assert(self.stepped_by(0) == self);
        } else {
            self.lemma_place_after((n - 1) as nat);
            let before = self.ticks + n - 1;
            vstd::arithmetic::div_mod::lemma_add_mod_noop(before, 1, p);
            vstd::arithmetic::div_mod::lemma_small_mod(1, p as nat);
        }
    }

    /// A clock that has run for a whole period is where it was, and puts out
    /// what it put out a period ago.
    pub proof fn lemma_periodic(self, n: nat)
        requires
            self.runs(),
            0 <= self.ticks,
            n > 0 || self.ticks < self.period,
        ensures
            self.stepped_by(n + self.period as nat).ticks == self.stepped_by(n).ticks,
            self.stepped_by(n + self.period as nat).level() == self.stepped_by(n).level(),
    {
        self.lemma_place_after(n);
        self.lemma_place_after(n + self.period as nat);
        let p = self.period as int;
        vstd::arithmetic::div_mod::lemma_mod_add_multiples_vanish(self.ticks + n, p);
    }
}

impl View for ClockUnit {
    type V = ClockState;

    closed spec fn view(&self) -> ClockState {
        ClockState { period: self.period, width: self.width, ticks: self.ticks as int }
    }
}

impl ClockUnit {
    #[verifier::type_invariant]
    spec fn counter_fits(&self) -> bool {
        self.ticks < usize::MAX
    }

    /// A clock at the start of a period.
    pub fn new(period: usize, width: usize) -> (unit: Self)
        ensures
            unit@ == (ClockState { period, width, ticks: 0 }),
    {
        ClockUnit { period, width, ticks: 0 }
    }

    /// Gives the clock another period and pulse width; it goes on from where
    /// it is.
    pub fn set_timing(&mut self, period: usize, width: usize)
        ensures
            final(self)@ == (ClockState { period, width, ticks: old(self)@.ticks }),
    {
        proof {
            use_type_invariant(&*self);
        }
        self.period = period;
        self.width = width;
    }

    /// Tells whether the clock runs.
    pub fn runs(&self) -> (r: bool)
        ensures
            r == self@.runs(),
    {
        self.period >= SHORTEST_PERIOD
    }
}

/// A clock is deterministic.
pub proof fn lemma_clock_is_deterministic()
    ensures
        is_deterministic::<ClockUnit>(),
{
}

impl AudioUnit for ClockUnit {
    /// The timing is counted in samples, so a new sample rate changes
    /// nothing.
    open spec fn retuned(&self, sample_rate: usize, next: &Self) -> bool {
        next@ == self@
    }

    /// The clock moves on by one sample and puts out the level of the place
    /// it has come to.
    open spec fn ticked(
        &self,
        inputs: Seq<Option<Voltage>>,
        outputs: Seq<Voltage>,
        next: &Self,
        emitted: Seq<Voltage>,
    ) -> bool {
        &&& next@ == self@.stepped()
        &&& 0 <= next@.ticks
        &&& emitted == written(outputs, Clock::TRIGGER_OUT as int, next@.level())
    }

    fn reset(&mut self, sample_rate: usize) {
    }

    fn tick(&mut self, inputs: &[Option<Voltage>], outputs: &mut [Voltage]) {
        proof {
            use_type_invariant(&*self);
        }
        if self.period < SHORTEST_PERIOD {
            write_output(outputs, Clock::TRIGGER_OUT, ZERO_VOLTS);
            return ;
        }
        self.ticks = (self.ticks + 1) % self.period;
        let high = if self.width < 1 {
            1
        } else if self.width > self.period - 2 {
            self.period - 2
        } else {
            self.width
        };
        let level = if self.ticks < high {
            CV_VOLTS
        } else {
            ZERO_VOLTS
        };
        write_output(outputs, Clock::TRIGGER_OUT, level);
    }
}

impl Clock {
    /// The output channel that carries the pulses.
    pub const TRIGGER_OUT: usize = 0;

    /// A clock with a pulse every `period` samples that is high for half of
    /// the period.
    pub fn new(period: usize) -> (clock: Self)
        ensures
            clock == (Clock { period, width: period / 2 }),
    {
        Clock { period, width: period / 2 }
    }
}

impl Module for Clock {
    type Unit = ClockUnit;

    open spec fn has_inputs(&self, n: usize) -> bool {
        n == 0
    }

    open spec fn has_outputs(&self, n: usize) -> bool {
        n == 1
    }

    open spec fn creates(&self, unit: &ClockUnit) -> bool {
        unit@ == (ClockState { period: self.period, width: self.width, ticks: 0 })
    }

    fn inputs(&self) -> usize {
        0
    }

    fn outputs(&self) -> usize {
        1
    }

    fn create_audio_unit(&self) -> ClockUnit {
        ClockUnit::new(self.period, self.width)
    }
}

} // verus!
