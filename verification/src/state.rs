//! The mathematical model of a rack: which units it owns, what their buffers
//! hold, how they are patched, and what one tick does to all of that.

use vstd::prelude::*;
use vstd::string::StringExecFns;
use crate::module::{input_level, AudioUnit, Module, ModuleHandle, ModuleInput, ModuleOutput};
use crate::voltage::{Voltage, ZERO_VOLTS};

verus! {

/// What can go wrong when a patch is changed.
#[derive(Copy, Clone, Debug, PartialEq, Eq, Structural)]
pub enum RackError {
    /// A handle names no unit of the rack.
    InvalidModule,
    /// A channel index is not below the unit's channel count.
    InvalidChannel,
    /// No cable runs between the two ports.
    NotConnected,
}

impl RackError {
    /// The error in words.
    pub open spec fn words(self) -> Seq<char> {
        match self {
            RackError::InvalidModule => "the referenced module does not exist"@,
            RackError::InvalidChannel => "the referenced module channel does not exist"@,
            RackError::NotConnected => "the referenced modules are not connected"@,
        }
    }

    /// The error in words.
    pub fn message(&self) -> (message: String)
        ensures
            message@ == self.words(),
    {
        match self {
            RackError::InvalidModule => String::from_str("the referenced module does not exist"),
            RackError::InvalidChannel => String::from_str("the referenced module channel does not exist"),
            RackError::NotConnected => String::from_str("the referenced modules are not connected"),
        }
    }
}

/// A patch cable: the output it starts at and the input it ends at.
pub type Cable = (ModuleOutput, ModuleInput);

/// One unit of a rack together with its two buffers.
pub struct UnitState<U> {
    /// The unit itself.
    pub unit: U,
    /// One slot per input channel: `None` while nothing has been delivered
    /// since the channel was last unpatched.
    pub inputs: Seq<Option<Voltage>>,
    /// One level per output channel, as the unit left it on its last tick.
    pub outputs: Seq<Voltage>,
}

/// A rack, as a value.
pub struct RackState<U> {
    /// The sample rate that the units were last told.
    pub sample_rate: usize,
    /// The units, by handle.
    pub units: Map<ModuleHandle, UnitState<U>>,
    /// The patch cables, in the order in which they deliver.
    pub cables: Seq<Cable>,
    /// The output channel that feeds the audio output, if one is connected.
    pub output: Option<ModuleOutput>,
}

/// The buffers of a unit that has just been put in: every input unpatched,
/// every output silent.
pub open spec fn fresh_unit<U>(unit: U, inputs: usize, outputs: usize) -> UnitState<U> {
    UnitState {
        unit,
        inputs: Seq::new(inputs as nat, |c: int| None::<Voltage>),
        outputs: Seq::new(outputs as nat, |c: int| ZERO_VOLTS),
    }
}

impl<U: AudioUnit> RackState<U> {
    /// The rack that owns nothing.
    pub open spec fn empty() -> Self {
        RackState { sample_rate: 0, units: Map::empty(), cables: Seq::empty(), output: None }
    }

    /// Whether `src` is an output channel of a unit of the rack.
    pub open spec fn has_output(self, src: ModuleOutput) -> bool {
        self.units.contains_key(src.module) && src.channel < self.units[src.module].outputs.len()
    }

    /// Whether `dst` is an input channel of a unit of the rack.
    pub open spec fn has_input(self, dst: ModuleInput) -> bool {
        self.units.contains_key(dst.module) && dst.channel < self.units[dst.module].inputs.len()
    }

    /// Whether a cable runs between two channels that exist.
    pub open spec fn cable_fits(self, cable: Cable) -> bool {
        self.has_output(cable.0) && self.has_input(cable.1)
    }

    /// Every cable runs between channels that exist, and so does the
    /// connection to the audio output.
    pub open spec fn wf(self) -> bool {
        &&& self.units.dom().finite()
        &&& forall|i: int| 0 <= i < self.cables.len() ==> self.cable_fits(#[trigger] self.cables[i])
        &&& self.output matches Some(src) ==> self.has_output(src)
    }

    /// The level that the output channel `src` holds.
    pub open spec fn level(self, src: ModuleOutput) -> Voltage {
        self.units[src.module].outputs[src.channel as int]
    }

    /// What the input slot `dst` holds.
    pub open spec fn slot(self, dst: ModuleInput) -> Option<Voltage> {
        self.units[dst.module].inputs[dst.channel as int]
    }

    /// The level at the audio output: that of the connected channel, and
    /// silence while none is connected.
    pub open spec fn sink_level(self) -> Voltage {
        match self.output {
            Some(src) => self.level(src),
            None => ZERO_VOLTS,
        }
    }

    /// What the input slot `dst` holds once the first `n` cables have
    /// delivered: the level at the start of the last of them that ends at
    /// `dst`, and what the slot held before where none of them does.
    pub open spec fn fed(self, n: nat, dst: ModuleInput) -> Option<Voltage>
        decreases n,
    {
        if n == 0 {
            self.slot(dst)
        } else if self.cables[n - 1].1 == dst {
            Some(self.level(self.cables[n - 1].0))
        } else {
            self.fed((n - 1) as nat, dst)
        }
    }

    /// What the input slot `dst` holds once every cable has delivered.
    pub open spec fn delivered(self, dst: ModuleInput) -> Option<Voltage> {
        self.fed(self.cables.len(), dst)
    }

    /// The input buffer that the unit `handle` reads on the next tick.
    pub open spec fn patched_inputs(self, handle: ModuleHandle) -> Seq<Option<Voltage>> {
        Seq::new(
            self.units[handle].inputs.len(),
            |c: int| self.delivered(ModuleInput { module: handle, channel: c as usize }),
        )
    }

    /// Whether one tick may turn this rack into `next`: the patch stays as it
    /// is, every cable delivers the level that its source held before the
    /// tick, and then every unit runs once on the inputs so delivered.
    pub open spec fn steps_to(self, next: Self) -> bool {
        &&& next.sample_rate == self.sample_rate
        &&& next.cables == self.cables
        &&& next.output == self.output
        &&& next.units.dom() == self.units.dom()
        &&& forall|h: ModuleHandle| #[trigger]
            self.units.contains_key(h) ==> {
                &&& next.units[h].inputs == self.patched_inputs(h)
                &&& next.units[h].outputs.len() == self.units[h].outputs.len()
                &&& self.units[h].unit.ticked(
                    self.patched_inputs(h),
                    self.units[h].outputs,
                    &next.units[h].unit,
                    next.units[h].outputs,
                )
            }
    }

    /// Whether a reset to `sample_rate` may turn this rack into `next`: every
    /// unit is told the rate, and nothing else changes.
    pub open spec fn retunes_to(self, sample_rate: usize, next: Self) -> bool {
        &&& next.sample_rate == sample_rate
        &&& next.cables == self.cables
        &&& next.output == self.output
        &&& next.units.dom() == self.units.dom()
        &&& forall|h: ModuleHandle| #[trigger]
            self.units.contains_key(h) ==> {
                &&& next.units[h].inputs == self.units[h].inputs
                &&& next.units[h].outputs == self.units[h].outputs
                &&& self.units[h].unit.retuned(sample_rate, &next.units[h].unit)
            }
    }

    /// Whether `next` is the rack after `module` has made a unit and the unit
    /// has been put in under `handle`: the unit is one that the module
    /// makes, told the sample rate, and it has the channels that the module
    /// says.
    pub open spec fn installs<M: Module<Unit = U>>(self, module: &M, handle: ModuleHandle, next: Self) -> bool {
        exists|made: U, inputs: usize, outputs: usize|
            {
                &&& module.creates(&made)
                &&& module.has_inputs(inputs)
                &&& module.has_outputs(outputs)
                &&& next.units.contains_key(handle)
                &&& #[trigger] made.retuned(self.sample_rate, &next.units[handle].unit)
                &&& next == #[trigger] self.with_unit(handle, next.units[handle].unit, inputs, outputs)
            }
    }

    /// Why the request to connect `src` to `dst` is refused, if it is. A
    /// handle that names no unit is reported before a channel that does not
    /// exist. The audio output takes a cable on any of its channels.
    pub open spec fn connect_error(self, src: ModuleOutput, dst: ModuleInput) -> Option<RackError> {
        if !self.units.contains_key(src.module) {
            Some(RackError::InvalidModule)
        } else if dst.module.is_sink() {
            if self.has_output(src) {
                None
            } else {
                Some(RackError::InvalidChannel)
            }
        } else if !self.units.contains_key(dst.module) {
            Some(RackError::InvalidModule)
        } else if self.has_output(src) && self.has_input(dst) {
            None
        } else {
            Some(RackError::InvalidChannel)
        }
    }

    /// The rack after `src` has been connected to `dst`: a connection to the
    /// audio output takes the place of the one before it, any other becomes
    /// the last cable.
    pub open spec fn connected(self, src: ModuleOutput, dst: ModuleInput) -> Self {
        if dst.module.is_sink() {
            RackState { output: Some(src), ..self }
        } else {
            RackState { cables: self.cables.push((src, dst)), ..self }
        }
    }

    /// The index of the first cable from `src` to `dst`.
    pub open spec fn first_cable(self, src: ModuleOutput, dst: ModuleInput) -> Option<int> {
        self.cables.index_of_first((src, dst))
    }

    /// Whether the request to disconnect `src` from `dst` is granted: the
    /// audio output can always be disconnected, anything else only where a
    /// cable runs.
    pub open spec fn can_disconnect(self, src: ModuleOutput, dst: ModuleInput) -> bool {
        dst.module.is_sink() || self.cables.contains((src, dst))
    }

    /// The cables after the one at index `i` has been taken out: the others
    /// stay in the order in which they were.
    pub open spec fn without_cable(self, i: int) -> Seq<Cable> {
        self.cables.remove(i)
    }

    /// The rack after `src` has been disconnected from `dst`: the audio
    /// output loses its connection; elsewhere one cable between the two is
    /// taken out, the first where several run, and the input slot is
    /// unpatched.
    pub open spec fn disconnected(self, src: ModuleOutput, dst: ModuleInput) -> Self {
        if dst.module.is_sink() {
            RackState { output: None, ..self }
        } else {
            let unit = self.units[dst.module];
            RackState {
                cables: self.without_cable(self.first_cable(src, dst).unwrap()),
                units: self.units.insert(
                    dst.module,
                    UnitState { inputs: unit.inputs.update(dst.channel as int, None), ..unit },
                ),
                ..self
            }
        }
    }

    /// Whether a cable still runs between channels that exist once the unit
    /// `handle` has `inputs` input channels and `outputs` output channels.
    pub open spec fn survives(handle: ModuleHandle, inputs: usize, outputs: usize, cable: Cable) -> bool {
        &&& cable.0.module == handle ==> cable.0.channel < outputs
        &&& cable.1.module == handle ==> cable.1.channel < inputs
    }

    /// The rack after a unit has been put in under `handle`, with fresh
    /// buffers. Where the handle was taken, the new unit stands in for the old
    /// one, and what was patched to a channel that the new unit lacks is
    /// unpatched.
    pub open spec fn with_unit(self, handle: ModuleHandle, unit: U, inputs: usize, outputs: usize) -> Self {
        RackState {
            sample_rate: self.sample_rate,
            units: self.units.insert(handle, fresh_unit(unit, inputs, outputs)),
            cables: self.cables.filter(|c: Cable| Self::survives(handle, inputs, outputs, c)),
            output: match self.output {
                Some(src) => if src.module == handle && src.channel >= outputs {
                    None
                } else {
                    Some(src)
                },
                None => None,
            },
        }
    }
}

/// A filter that every element passes keeps the sequence as it is.
pub proof fn lemma_filter_keeps_all<A>(s: Seq<A>, pred: spec_fn(A) -> bool)
    requires
        forall|i: int| 0 <= i < s.len() ==> pred(#[trigger] s[i]),
    ensures
        s.filter(pred) == s,
    decreases s.len(),
{
    reveal(Seq::filter);
    if s.len() > 0 {
        lemma_filter_keeps_all(s.drop_last(), pred);
        assert(s.drop_last().push(s.last()) =~= s);
    }
}

/// Whether each rack of `run` is what one tick may make of the one before it.
pub open spec fn is_run<U: AudioUnit>(run: Seq<RackState<U>>) -> bool {
    forall|n: int| 0 <= n < run.len() - 1 ==> (#[trigger] run[n]).steps_to(run[n + 1])
}

impl<U: AudioUnit> RackState<U> {
    /// Once the first `n` cables have delivered, an input at which the cable
    /// at index `i` ends, and none of those after it, holds the level at the
    /// start of that cable.
    pub proof fn lemma_fed_by(self, n: nat, i: int)
        requires
            0 <= i < n <= self.cables.len(),
            forall|j: int| i < j < n ==> (#[trigger] self.cables[j]).1 != self.cables[i].1,
        ensures
            self.fed(n, self.cables[i].1) == Some(self.level(self.cables[i].0)),
        decreases n,
    {
        if n - 1 != i {
            assert(self.cables[n - 1].1 != self.cables[i].1);
            self.lemma_fed_by((n - 1) as nat, i);
        }
    }

    /// An input at which none of the first `n` cables ends holds what it held
    /// before they delivered.
    pub proof fn lemma_fed_by_none(self, n: nat, dst: ModuleInput)
        requires
            n <= self.cables.len(),
            forall|j: int| 0 <= j < n ==> (#[trigger] self.cables[j]).1 != dst,
        ensures
            self.fed(n, dst) == self.slot(dst),
        decreases n,
    {
        if n > 0 {
            assert(self.cables[n - 1].1 != dst);
            self.lemma_fed_by_none((n - 1) as nat, dst);
        }
    }

    /// A tick keeps a consistent rack consistent.
    pub proof fn lemma_step_keeps_wf(self, next: Self)
        requires
            self.wf(),
            self.steps_to(next),
        ensures
            next.wf(),
    {
        assert forall|i: int| 0 <= i < next.cables.len() implies next.cable_fits(#[trigger] next.cables[i]) by {
            let cable = self.cables[i];
            assert(self.cable_fits(cable));
            assert(self.units.contains_key(cable.0.module));
            assert(self.units.contains_key(cable.1.module));
        }
        if let Some(src) = self.output {
            assert(self.units.contains_key(src.module));
        }
    }

    /// The one-sample delay of a cable, for one tick: after the tick, the
    /// input at the end of a cable holds the level that the output at its
    /// start held before the tick. Where several cables end at one input, the
    /// one plugged in last is the one that counts. Nothing is asked of the
    /// two units: the cable may lead from a unit back to itself.
    pub proof fn lemma_cable_delays_one_tick(self, next: Self, i: int)
        requires
            self.wf(),
            self.steps_to(next),
            0 <= i < self.cables.len(),
            forall|j: int| i < j < self.cables.len() ==> (#[trigger] self.cables[j]).1 != self.cables[i].1,
        ensures
            next.slot(self.cables[i].1) == Some(self.level(self.cables[i].0)),
    {
        let dst = self.cables[i].1;
        assert(self.cable_fits(self.cables[i]));
        assert(self.units.contains_key(dst.module));
        self.lemma_fed_by(self.cables.len(), i);
        assert(self.patched_inputs(dst.module)[dst.channel as int] == self.delivered(dst));
    }

    /// An input at which no cable ends is left alone by a tick: unpatched, it
    /// stays unpatched, and the unit reads it as such.
    pub proof fn lemma_unpatched_input_stays(self, next: Self, dst: ModuleInput)
        requires
            self.steps_to(next),
            self.has_input(dst),
            forall|j: int| 0 <= j < self.cables.len() ==> (#[trigger] self.cables[j]).1 != dst,
        ensures
            next.slot(dst) == self.slot(dst),
    {
        self.lemma_fed_by_none(self.cables.len(), dst);
        assert(self.units.contains_key(dst.module));
        assert(self.patched_inputs(dst.module)[dst.channel as int] == self.delivered(dst));
    }

    /// A unit that is put in under a handle that was free leaves the rest of
    /// the rack as it was: the units, the cables and the connection to the
    /// audio output.
    pub proof fn lemma_new_unit_keeps_patch(self, handle: ModuleHandle, unit: U, inputs: usize, outputs: usize)
        requires
            self.wf(),
            !self.units.contains_key(handle),
        ensures
            self.with_unit(handle, unit, inputs, outputs).wf(),
            self.with_unit(handle, unit, inputs, outputs).cables == self.cables,
            self.with_unit(handle, unit, inputs, outputs).output == self.output,
            self.with_unit(handle, unit, inputs, outputs).units.remove(handle) == self.units,
    {
        let next = self.with_unit(handle, unit, inputs, outputs);
        let keep = |c: Cable| Self::survives(handle, inputs, outputs, c);
        assert forall|i: int| 0 <= i < self.cables.len() implies keep(#[trigger] self.cables[i]) by {
            assert(self.cable_fits(self.cables[i]));
        }
        lemma_filter_keeps_all(self.cables, keep);
        assert(next.units.remove(handle) =~= self.units);
        assert forall|i: int| 0 <= i < next.cables.len() implies next.cable_fits(#[trigger] next.cables[i]) by {
            assert(self.cable_fits(self.cables[i]));
        }
        if let Some(src) = self.output {
            assert(self.has_output(src));
        }
    }

    /// A request to connect that is refused is refused for the stated
    /// reason: an unknown handle, or else a channel that does not exist.
    pub proof fn lemma_connect_refusals(self, src: ModuleOutput, dst: ModuleInput)
        ensures
            self.connect_error(src, dst) == Some(RackError::InvalidModule) <==> !self.units.contains_key(
                src.module,
            ) || (!dst.module.is_sink() && !self.units.contains_key(dst.module)),
            self.connect_error(src, dst) is None <==> self.has_output(src) && (dst.module.is_sink()
                || self.has_input(dst)),
            self.connect_error(src, dst) != Some(RackError::NotConnected),
    {
    }

    /// Connecting keeps a consistent rack consistent.
    pub proof fn lemma_connect_keeps_wf(self, src: ModuleOutput, dst: ModuleInput)
        requires
            self.wf(),
            self.connect_error(src, dst) is None,
        ensures
            self.connected(src, dst).wf(),
    {
        let next = self.connected(src, dst);
        if !dst.module.is_sink() {
            assert forall|i: int| 0 <= i < next.cables.len() implies next.cable_fits(#[trigger] next.cables[i]) by {
                if i < self.cables.len() {
                    assert(self.cable_fits(self.cables[i]));
                }
            }
        }
    }

    /// Plugging a cable in and pulling it out again leaves the input
    /// unpatched and changes nothing else about the units. Where no cable ran
    /// between the two ports before, the cables are what they were, in the
    /// same order. Where one did, it is the older one that goes, and the new
    /// one stays as the last cable.
    pub proof fn lemma_connect_then_disconnect(self, src: ModuleOutput, dst: ModuleInput)
        requires
            self.wf(),
            self.connect_error(src, dst) is None,
            !dst.module.is_sink(),
        ensures
            self.connected(src, dst).can_disconnect(src, dst),
            !self.cables.contains((src, dst)) ==> self.connected(src, dst).disconnected(src, dst).cables
                == self.cables,
            self.cables.contains((src, dst)) ==> self.connected(src, dst).disconnected(src, dst).cables
                == self.without_cable(self.first_cable(src, dst).unwrap()).push((src, dst)),
            self.connected(src, dst).disconnected(src, dst).output == self.output,
            self.connected(src, dst).disconnected(src, dst).sample_rate == self.sample_rate,
            self.connected(src, dst).disconnected(src, dst).units == self.units.insert(
                dst.module,
                UnitState {
                    inputs: self.units[dst.module].inputs.update(dst.channel as int, None),
                    ..self.units[dst.module]
                },
            ),
            self.connected(src, dst).disconnected(src, dst).slot(dst) == None::<Voltage>,
    {
        let plugged = self.connected(src, dst);
        let cable = (src, dst);
        assert(plugged.cables[self.cables.len() as int] == cable);
        plugged.cables.index_of_first_ensures(cable);
        self.cables.index_of_first_ensures(cable);
        let i = plugged.first_cable(src, dst).unwrap();
        if self.cables.contains(cable) {
            let k = self.first_cable(src, dst).unwrap();
            assert(plugged.cables[k] == cable);
            assert(i == k) by {
                if i < k {
                    assert(self.cables[i] == plugged.cables[i]);
                }
            }
            assert(plugged.without_cable(i) =~= self.without_cable(k).push(cable));
        } else {
            assert(i == self.cables.len()) by {
                if i < self.cables.len() {
                    assert(self.cables[i] == plugged.cables[i]);
                }
            }
            assert(plugged.without_cable(i) =~= self.cables);
        }
    }

    /// Pulling a cable leaves the other cables in the order in which they
    /// were.
    pub proof fn lemma_disconnect_keeps_order(self, src: ModuleOutput, dst: ModuleInput)
        requires
            !dst.module.is_sink(),
            self.cables.contains((src, dst)),
        ensures
            self.first_cable(src, dst) matches Some(i) && 0 <= i < self.cables.len() && self.cables[i] == (
                src,
                dst,
            ) && self.disconnected(src, dst).cables.len() == self.cables.len() - 1 && forall|j: int|
                0 <= j < self.cables.len() - 1 ==> #[trigger] self.disconnected(src, dst).cables[j] == (if j
                    < i {
                    self.cables[j]
                } else {
                    self.cables[j + 1]
                }),
    {
        self.cables.index_of_first_ensures((src, dst));
    }

    /// Without the cable at index `i`, the cables deliver to every input at
    /// which that cable does not end what they delivered with it.
    pub proof fn lemma_fed_without(self, next: Self, i: int, n: nat, d: ModuleInput)
        requires
            0 <= i < self.cables.len(),
            next.cables == self.cables.remove(i),
            self.cables[i].1 != d,
            next.slot(d) == self.slot(d),
            forall|src: ModuleOutput| next.level(src) == self.level(src),
            n <= self.cables.len(),
        ensures
            n <= i ==> next.fed(n, d) == self.fed(n, d),
            n > i ==> next.fed((n - 1) as nat, d) == self.fed(n, d),
        decreases n,
    {
        if n > 0 {
            self.lemma_fed_without(next, i, (n - 1) as nat, d);
            if n <= i {
                assert(next.cables[n - 1] == self.cables[n - 1]);
            } else if n - 1 > i {
                assert(next.cables[n - 2] == self.cables[n - 1]);
            }
        }
    }

    /// Pulling a cable changes nothing for the other inputs: each is still
    /// fed by the cable that was plugged into it last.
    pub proof fn lemma_disconnect_spares_other_inputs(self, src: ModuleOutput, dst: ModuleInput, d: ModuleInput)
        requires
            self.wf(),
            !dst.module.is_sink(),
            self.cables.contains((src, dst)),
            self.has_input(d),
            d != dst,
        ensures
            self.disconnected(src, dst).delivered(d) == self.delivered(d),
    {
        self.cables.index_of_first_ensures((src, dst));
        let i = self.first_cable(src, dst).unwrap();
        let next = self.disconnected(src, dst);
        assert(self.cable_fits(self.cables[i]));
        assert forall|x: ModuleOutput| next.level(x) == self.level(x) by {}
        self.lemma_fed_without(next, i, self.cables.len(), d);
    }

    /// The input that has lost a cable is fed by the cable that was plugged
    /// into it last among those that stay.
    pub proof fn lemma_disconnect_leaves_the_last_word(self, src: ModuleOutput, dst: ModuleInput, j: int)
        requires
            self.wf(),
            !dst.module.is_sink(),
            self.cables.contains((src, dst)),
            0 <= j < self.cables.len(),
            j != self.first_cable(src, dst).unwrap(),
            self.cables[j].1 == dst,
            forall|k: int|
                j < k < self.cables.len() && k != self.first_cable(src, dst).unwrap() ==> (
                #[trigger] self.cables[k]).1 != dst,
        ensures
            self.disconnected(src, dst).delivered(dst) == Some(self.level(self.cables[j].0)),
    {
        self.lemma_disconnect_keeps_order(src, dst);
        let i = self.first_cable(src, dst).unwrap();
        let next = self.disconnected(src, dst);
        let at = if j < i { j } else { j - 1 };
        assert(next.cables[at] == self.cables[j]);
        assert forall|k: int| at < k < next.cables.len() implies (#[trigger] next.cables[k]).1 != next.cables[at].1 by {
            if k < i {
                assert(next.cables[k] == self.cables[k]);
            } else {
                assert(next.cables[k] == self.cables[k + 1]);
            }
        }
        next.lemma_fed_by(next.cables.len(), at);
        assert(self.cable_fits(self.cables[j]));
        assert(self.cable_fits(self.cables[i]));
    }

    /// A cable that is plugged in and pulled out again leaves no trace on the
    /// next tick: where no other cable ends at the input, the unit finds it
    /// unpatched, and a unit that reads its inputs with
    /// [`read_input`](crate::module::read_input) reads zero volts.
    pub proof fn lemma_unplugged_input_reads_zero(self, src: ModuleOutput, dst: ModuleInput, next: Self)
        requires
            self.wf(),
            self.connect_error(src, dst) is None,
            !dst.module.is_sink(),
            forall|j: int| 0 <= j < self.cables.len() ==> (#[trigger] self.cables[j]).1 != dst,
            self.connected(src, dst).disconnected(src, dst).steps_to(next),
        ensures
            next.slot(dst) == None::<Voltage>,
            input_level(next.units[dst.module].inputs, dst.channel as int) == ZERO_VOLTS,
    {
        let unplugged = self.connected(src, dst).disconnected(src, dst);
        self.lemma_connect_then_disconnect(src, dst);
        assert(unplugged.has_input(dst));
        unplugged.lemma_unpatched_input_stays(next, dst);
    }

    /// Connecting the audio output and disconnecting it again leaves the
    /// audio output unconnected and everything else as it was.
    pub proof fn lemma_connect_then_disconnect_sink(self, src: ModuleOutput, dst: ModuleInput)
        requires
            self.connect_error(src, dst) is None,
            dst.module.is_sink(),
        ensures
            self.connected(src, dst).can_disconnect(src, dst),
            self.connected(src, dst).disconnected(src, dst) == (RackState { output: None, ..self }),
            self.connected(src, dst).disconnected(src, dst).sink_level() == ZERO_VOLTS,
    {
    }
}

/// The one-sample delay of a cable, over a run of ticks: on every tick but
/// the first state, the input at the end of a cable holds the level that the
/// output at its start held one tick before. This holds of any patch, also of
/// one in which cables form a cycle of any length.
pub proof fn lemma_propagation_delay<U: AudioUnit>(run: Seq<RackState<U>>, i: int, n: int)
    requires
        run.len() > 0,
        run[0].wf(),
        is_run(run),
        1 <= n < run.len(),
        0 <= i < run[0].cables.len(),
        forall|j: int| i < j < run[0].cables.len() ==> (#[trigger] run[0].cables[j]).1 != run[0].cables[i].1,
    ensures
        run[n].slot(run[0].cables[i].1) == Some(run[n - 1].level(run[0].cables[i].0)),
{
    lemma_run_keeps_patch(run, n - 1);
    assert(run[n - 1].steps_to(run[n]));
    run[n - 1].lemma_cable_delays_one_tick(run[n], i);
}

/// A run of ticks changes neither the cables nor the consistency of the rack.
pub proof fn lemma_run_keeps_patch<U: AudioUnit>(run: Seq<RackState<U>>, n: int)
    requires
        run.len() > 0,
        run[0].wf(),
        is_run(run),
        0 <= n < run.len(),
    ensures
        run[n].wf(),
        run[n].cables == run[0].cables,
        run[n].output == run[0].output,
    decreases n,
{
    if n > 0 {
        lemma_run_keeps_patch(run, n - 1);
        assert(run[n - 1].steps_to(run[n]));
        run[n - 1].lemma_step_keeps_wf(run[n]);
    }
}

/// Whether the units of kind `U` are deterministic: what a tick leaves
/// behind is settled by the unit and by what it is given.
pub open spec fn is_deterministic<U: AudioUnit>() -> bool {
    forall|unit: U, inputs: Seq<Option<Voltage>>, outputs: Seq<Voltage>, a: U, x: Seq<Voltage>, b: U, y: Seq<Voltage>|
        #![trigger unit.ticked(inputs, outputs, &a, x), unit.ticked(inputs, outputs, &b, y)]
        unit.ticked(inputs, outputs, &a, x) && unit.ticked(inputs, outputs, &b, y) ==> a == b && x == y
}

/// With deterministic units, a rack is after a tick what it was bound to be:
/// two racks that are alike are alike after a tick.
pub proof fn lemma_tick_is_determined<U: AudioUnit>(start: RackState<U>, a: RackState<U>, b: RackState<U>)
    requires
        is_deterministic::<U>(),
        start.steps_to(a),
        start.steps_to(b),
    ensures
        a == b,
{
    assert forall|h: ModuleHandle| a.units.contains_key(h) implies a.units[h] == b.units[h] by {
        assert(start.units.contains_key(h));
        let unit = start.units[h].unit;
        let inputs = start.patched_inputs(h);
        assert(unit.ticked(inputs, start.units[h].outputs, &a.units[h].unit, a.units[h].outputs));
        assert(unit.ticked(inputs, start.units[h].outputs, &b.units[h].unit, b.units[h].outputs));
    }
    assert(a.units =~= b.units);
}

/// With deterministic units, two racks that start out alike stay alike for
/// as long as they run.
pub proof fn lemma_runs_agree<U: AudioUnit>(one: Seq<RackState<U>>, other: Seq<RackState<U>>, n: int)
    requires
        is_deterministic::<U>(),
        is_run(one),
        is_run(other),
        0 <= n < one.len(),
        n < other.len(),
        one[0] == other[0],
    ensures
        one[n] == other[n],
    decreases n,
{
    if n > 0 {
        lemma_runs_agree(one, other, n - 1);
        assert(one[n - 1].steps_to(one[n]));
        assert(other[n - 1].steps_to(other[n]));
        lemma_tick_is_determined(one[n - 1], one[n], other[n]);
    }
}

/// With deterministic units, two racks that start out alike put out the
/// same samples, bit for bit.
pub proof fn lemma_same_patch_same_sound<U: AudioUnit>(
    one: Seq<RackState<U>>,
    other: Seq<RackState<U>>,
    n: int,
)
    requires
        is_deterministic::<U>(),
        is_run(one),
        is_run(other),
        1 <= n < one.len(),
        n < other.len(),
        one[0] == other[0],
    ensures
        one[n].sink_level() == other[n].sink_level(),
{
    lemma_runs_agree(one, other, n);
}

} // verus!
