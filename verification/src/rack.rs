//! The rack: the owner of all units, of their buffers and of the patch.

use vstd::prelude::*;
use crate::module::{AudioUnit, Module, ModuleHandle, ModuleInput, ModuleOutput};
use crate::state::{fresh_unit, lemma_filter_keeps_all, Cable, RackError, RackState, UnitState};
use crate::voltage::{Voltage, ZERO_VOLTS};

verus! {

/// A unit in its place in the rack.
struct Slot<U> {
    handle: ModuleHandle,
    unit: U,
    inputs: Vec<Option<Voltage>>,
    outputs: Vec<Voltage>,
}

/// A cable together with the places of the two units it runs between, found
/// once when the cable is plugged in.
#[derive(Clone, Copy)]
struct Wire {
    src: ModuleOutput,
    dst: ModuleInput,
    src_slot: usize,
    dst_slot: usize,
}

/// The connection to the audio output, with the place of the unit it starts at.
#[derive(Clone, Copy)]
struct Tap {
    src: ModuleOutput,
    slot: usize,
}

/// A set of units and the cables between them, advanced one sample at a time.
///
/// Units are never taken out, so the place of a unit never changes; a cable
/// remembers the places of its two ends and a tick looks nothing up.
pub struct Rack<U: AudioUnit> {
    sample_rate: usize,
    slots: Vec<Slot<U>>,
    wires: Vec<Wire>,
    tap: Option<Tap>,
}

impl<U> Slot<U> {
    spec fn state(self) -> UnitState<U> {
        UnitState { unit: self.unit, inputs: self.inputs@, outputs: self.outputs@ }
    }
}

/// Whether some slot holds the unit `handle`.
spec fn holds<U>(slots: Seq<Slot<U>>, handle: ModuleHandle) -> bool {
    exists|i: int| 0 <= i < slots.len() && (#[trigger] slots[i]).handle == handle
}

/// The place of the unit `handle`.
spec fn place<U>(slots: Seq<Slot<U>>, handle: ModuleHandle) -> int {
    choose|i: int| 0 <= i < slots.len() && (#[trigger] slots[i]).handle == handle
}

/// No handle is held twice.
spec fn distinct<U>(slots: Seq<Slot<U>>) -> bool {
    forall|i: int, j: int|
        0 <= i < slots.len() && 0 <= j < slots.len() && (#[trigger] slots[i]).handle == (
        #[trigger] slots[j]).handle ==> i == j
}

/// The units of the model, read off the slots.
spec fn units_of<U>(slots: Seq<Slot<U>>) -> Map<ModuleHandle, UnitState<U>> {
    Map::new(|h: ModuleHandle| holds(slots, h), |h: ModuleHandle| slots[place(slots, h)].state())
}

/// The cables of the model, read off the wires.
spec fn cables_of(wires: Seq<Wire>) -> Seq<Cable> {
    Seq::new(wires.len(), |i: int| (wires[i].src, wires[i].dst))
}

/// Whether output channel `src` exists and belongs to the unit at `slot`.
spec fn output_at<U>(slots: Seq<Slot<U>>, src: ModuleOutput, slot: usize) -> bool {
    &&& slot < slots.len()
    &&& slots[slot as int].handle == src.module
    &&& src.channel < slots[slot as int].outputs@.len()
}

/// Whether input channel `dst` exists and belongs to the unit at `slot`.
spec fn input_at<U>(slots: Seq<Slot<U>>, dst: ModuleInput, slot: usize) -> bool {
    &&& slot < slots.len()
    &&& slots[slot as int].handle == dst.module
    &&& dst.channel < slots[slot as int].inputs@.len()
}

spec fn wire_fits<U>(slots: Seq<Slot<U>>, wire: Wire) -> bool {
    output_at(slots, wire.src, wire.src_slot) && input_at(slots, wire.dst, wire.dst_slot)
}

proof fn lemma_place<U>(slots: Seq<Slot<U>>, i: int)
    requires
        distinct(slots),
        0 <= i < slots.len(),
    ensures
        holds(slots, slots[i].handle),
        place(slots, slots[i].handle) == i,
        units_of(slots).contains_key(slots[i].handle),
        units_of(slots)[slots[i].handle] == slots[i].state(),
{
    let j = place(slots, slots[i].handle);
    assert(0 <= j < slots.len() && slots[j].handle == slots[i].handle);
}

proof fn lemma_held<U>(slots: Seq<Slot<U>>, handle: ModuleHandle)
    requires
        holds(slots, handle),
    ensures
        0 <= place(slots, handle) < slots.len(),
        slots[place(slots, handle)].handle == handle,
{
}

/// Changing what one slot holds, but not whose it is, changes that one entry
/// of the units.
proof fn lemma_update_slot<U>(before: Seq<Slot<U>>, after: Seq<Slot<U>>, k: int)
    requires
        distinct(before),
        0 <= k < before.len(),
        after.len() == before.len(),
        after[k].handle == before[k].handle,
        forall|j: int| 0 <= j < before.len() && j != k ==> after[j] == before[j],
    ensures
        distinct(after),
        units_of(after) =~= units_of(before).insert(before[k].handle, after[k].state()),
{
    assert forall|j: int| 0 <= j < before.len() implies (#[trigger] after[j]).handle == before[j].handle by {}
    assert forall|h: ModuleHandle| holds(after, h) == holds(before, h) by {
        if holds(after, h) {
            let i = place(after, h);
            assert(before[i].handle == h);
        }
        if holds(before, h) {
            let i = place(before, h);
            assert(after[i].handle == h);
        }
    }
    assert forall|h: ModuleHandle| holds(after, h) implies #[trigger] units_of(after)[h] == units_of(
        before,
    ).insert(before[k].handle, after[k].state())[h] by {
        let i = place(after, h);
        let j = place(before, h);
        assert(after[i].handle == h && before[j].handle == h);
        assert(before[i].handle == h);
        assert(i == j);
    }
}

/// Slots that hold the same handles in the same places hold the same units
/// in the same places.
proof fn lemma_same_handles<U>(before: Seq<Slot<U>>, after: Seq<Slot<U>>)
    requires
        distinct(before),
        after.len() == before.len(),
        forall|j: int| 0 <= j < before.len() ==> (#[trigger] after[j]).handle == before[j].handle,
    ensures
        distinct(after),
        units_of(after).dom() =~= units_of(before).dom(),
        forall|h: ModuleHandle| holds(before, h) ==> place(after, h) == place(before, h),
{
    assert forall|h: ModuleHandle| holds(after, h) == holds(before, h) by {
        if holds(after, h) {
            let i = place(after, h);
            assert(before[i].handle == h);
        }
        if holds(before, h) {
            let i = place(before, h);
            assert(after[i].handle == h);
        }
    }
    assert forall|h: ModuleHandle| holds(before, h) implies place(after, h) == place(before, h) by {
        let i = place(after, h);
        let j = place(before, h);
        assert(after[i].handle == h && before[j].handle == h);
        assert(before[i].handle == h);
    }
}

/// A slot pushed under a handle that none holds adds that one entry to the
/// units.
proof fn lemma_push_slot<U>(before: Seq<Slot<U>>, slot: Slot<U>)
    requires
        distinct(before),
        !holds(before, slot.handle),
    ensures
        distinct(before.push(slot)),
        units_of(before.push(slot)) =~= units_of(before).insert(slot.handle, slot.state()),
{
    let after = before.push(slot);
    assert forall|i: int, j: int|
        0 <= i < after.len() && 0 <= j < after.len() && (#[trigger] after[i]).handle == (
        #[trigger] after[j]).handle implies i == j by {
        if i < before.len() {
            assert(before[i].handle == after[i].handle);
        }
        if j < before.len() {
            assert(before[j].handle == after[j].handle);
        }
    }
    assert forall|h: ModuleHandle| holds(after, h) == (holds(before, h) || h == slot.handle) by {
        if holds(after, h) {
            let i = place(after, h);
            if i < before.len() {
                assert(before[i].handle == h);
            }
        }
        if holds(before, h) {
            let i = place(before, h);
            assert(after[i].handle == h);
        }
        if h == slot.handle {
            assert(after[before.len() as int].handle == h);
        }
    }
    assert forall|h: ModuleHandle| holds(after, h) implies #[trigger] units_of(after)[h] == units_of(
        before,
    ).insert(slot.handle, slot.state())[h] by {
        let i = place(after, h);
        assert(after[i].handle == h);
        if h != slot.handle {
            let j = place(before, h);
            assert(before[j].handle == h);
            assert(after[j].handle == h);
            assert(i == j);
        } else {
            assert(after[before.len() as int].handle == h);
            assert(i == before.len());
        }
    }
}

/// An input buffer of `n` unpatched channels.
fn unpatched(n: usize) -> (buffer: Vec<Option<Voltage>>)
    ensures
        buffer@ == Seq::new(n as nat, |c: int| None::<Voltage>),
{
    let mut buffer: Vec<Option<Voltage>> = Vec::new();
    let mut i: usize = 0;
    while i < n
        invariant
            0 <= i <= n,
            buffer@ == Seq::new(i as nat, |c: int| None::<Voltage>),
        decreases n - i,
    {
        buffer.push(None);
        i += 1;
        assert(buffer@ =~= Seq::new(i as nat, |c: int| None::<Voltage>));
    }
    buffer
}

/// An output buffer of `n` silent channels.
fn silent(n: usize) -> (buffer: Vec<Voltage>)
    ensures
        buffer@ == Seq::new(n as nat, |c: int| ZERO_VOLTS),
{
    let mut buffer: Vec<Voltage> = Vec::new();
    let mut i: usize = 0;
    while i < n
        invariant
            0 <= i <= n,
            buffer@ == Seq::new(i as nat, |c: int| ZERO_VOLTS),
        decreases n - i,
    {
        buffer.push(ZERO_VOLTS);
        i += 1;
        assert(buffer@ =~= Seq::new(i as nat, |c: int| ZERO_VOLTS));
    }
    buffer
}

impl<U: AudioUnit> View for Rack<U> {
    type V = RackState<U>;

    closed spec fn view(&self) -> RackState<U> {
        RackState {
            sample_rate: self.sample_rate,
            units: units_of(self.slots@),
            cables: cables_of(self.wires@),
            output: match self.tap {
                Some(tap) => Some(tap.src),
                None => None,
            },
        }
    }
}

impl<U: AudioUnit> Rack<U> {
    /// The rack is consistent: no handle is held twice, and every cable, like
    /// the connection to the audio output, runs between channels that exist.
    pub closed spec fn wf(&self) -> bool {
        &&& distinct(self.slots@)
        &&& forall|i: int| 0 <= i < self.wires@.len() ==> wire_fits(self.slots@, #[trigger] self.wires@[i])
        &&& self.tap matches Some(tap) ==> output_at(self.slots@, tap.src, tap.slot)
    }

    /// A consistent rack has a consistent model.
    pub proof fn lemma_wf(&self)
        requires
            self.wf(),
        ensures
            self@.wf(),
    {
        let slots = self.slots@;
        let dom = units_of(slots).dom();
        let handles = Set::new(|h: ModuleHandle| holds(slots, h));
        assert(dom =~= handles);
        Self::lemma_handles_finite(slots, slots.len());
        assert(handles =~= Self::handles_below(slots, slots.len())) by {
            assert forall|h: ModuleHandle| handles.contains(h) implies Self::handles_below(
                slots,
                slots.len(),
            ).contains(h) by {
                lemma_held(slots, h);
            }
        }
        assert forall|i: int| 0 <= i < self@.cables.len() implies self@.cable_fits(
            #[trigger] self@.cables[i],
        ) by {
            let w = self.wires@[i];
            assert(wire_fits(slots, w));
            lemma_place(slots, w.src_slot as int);
            lemma_place(slots, w.dst_slot as int);
        }
        if let Some(tap) = self.tap {
            lemma_place(slots, tap.slot as int);
        }
    }

    spec fn handles_below(slots: Seq<Slot<U>>, n: nat) -> Set<ModuleHandle> {
        Set::new(|h: ModuleHandle| exists|i: int| 0 <= i < n && i < slots.len() && (#[trigger] slots[i]).handle == h)
    }

    proof fn lemma_handles_finite(slots: Seq<Slot<U>>, n: nat)
        requires
            n <= slots.len(),
        ensures
            Self::handles_below(slots, n).finite(),
        decreases n,
    {
        if n == 0 {
            assert(Self::handles_below(slots, n) =~= Set::empty());
        } else {
            Self::lemma_handles_finite(slots, (n - 1) as nat);
            assert(Self::handles_below(slots, n) =~= Self::handles_below(slots, (n - 1) as nat).insert(
                slots[n - 1].handle,
            ));
        }
    }

    /// A rack that owns nothing.
    pub fn new() -> (rack: Self)
        ensures
            rack.wf(),
            rack@ == RackState::<U>::empty(),
    {
        let rack = Rack { sample_rate: 0, slots: Vec::new(), wires: Vec::new(), tap: None };
        assert(rack@.units =~= Map::empty());
        assert(rack@.cables =~= Seq::empty());
        rack
    }

    /// The input that stands for the audio output.
    pub fn audio_output() -> (port: ModuleInput)
        ensures
            port == (ModuleInput { module: ModuleHandle::sink(), channel: 0 }),
    {
        ModuleHandle::audio_output().input(0)
    }

    /// The place of the unit `handle`, if the rack owns it.
    fn find(&self, handle: ModuleHandle) -> (found: Option<usize>)
        requires
            self.wf(),
        ensures
            match found {
                Some(i) => i < self.slots@.len() && self.slots@[i as int].handle == handle
                    && self@.units.contains_key(handle) && self@.units[handle]
                    == self.slots@[i as int].state(),
                None => !self@.units.contains_key(handle),
            },
    {
        let mut i: usize = 0;
        while i < self.slots.len()
            invariant
                self.wf(),
                0 <= i <= self.slots@.len(),
                forall|k: int| 0 <= k < i ==> (#[trigger] self.slots@[k]).handle != handle,
            decreases self.slots@.len() - i,
        {
            if self.slots[i].handle == handle {
                proof {
                    lemma_place(self.slots@, i as int);
                }
                return Some(i);
            }
            i += 1;
        }
        None
    }

    /// Tells whether the rack owns a unit under `handle`.
    pub fn contains(&self, handle: ModuleHandle) -> (r: bool)
        requires
            self.wf(),
        ensures
            r == self@.units.contains_key(handle),
    {
        self.find(handle).is_some()
    }

    /// The level that the output channel `src` holds, if the channel exists.
    pub fn output_level(&self, src: ModuleOutput) -> (level: Option<Voltage>)
        requires
            self.wf(),
        ensures
            level is Some <==> self@.has_output(src),
            level matches Some(v) ==> v == self@.level(src),
    {
        match self.find(src.module) {
            Some(i) => if src.channel < self.slots[i].outputs.len() {
                Some(self.slots[i].outputs[src.channel])
            } else {
                None
            },
            None => None,
        }
    }

    /// What the input slot `dst` holds, if the channel exists: `Some(None)`
    /// is an unpatched input.
    pub fn input_level(&self, dst: ModuleInput) -> (slot: Option<Option<Voltage>>)
        requires
            self.wf(),
        ensures
            slot is Some <==> self@.has_input(dst),
            slot matches Some(held) ==> held == self@.slot(dst),
    {
        match self.find(dst.module) {
            Some(i) => if dst.channel < self.slots[i].inputs.len() {
                Some(self.slots[i].inputs[dst.channel])
            } else {
                None
            },
            None => None,
        }
    }

    /// The number of cables that are plugged in.
    pub fn cable_count(&self) -> (n: usize)
        ensures
            n == self@.cables.len(),
    {
        self.wires.len()
    }

    /// The output channel that feeds the audio output, if one is connected.
    pub fn audio_source(&self) -> (src: Option<ModuleOutput>)
        ensures
            src == self@.output,
    {
        match self.tap {
            Some(tap) => Some(tap.src),
            None => None,
        }
    }

    /// The sample rate that the units were last told.
    pub fn sample_rate(&self) -> (rate: usize)
        ensures
            rate == self@.sample_rate,
    {
        self.sample_rate
    }

    /// The number of units that the rack owns.
    pub fn len(&self) -> (n: usize)
        requires
            self.wf(),
        ensures
            n == self@.units.len(),
    {
        proof {
            self.lemma_count();
        }
        self.slots.len()
    }

    /// Plugs a cable in, from the output `src` to the input `dst`, or, where
    /// `dst` belongs to the audio output, makes `src` what is heard.
    ///
    /// The request is refused, and the rack left as it was, when a handle
    /// names no unit or a channel does not exist.
    pub fn connect(&mut self, src: ModuleOutput, dst: ModuleInput) -> (result: Result<(), RackError>)
        requires
            old(self).wf(),
        ensures
            final(self).wf(),
            match result {
                Ok(()) => old(self)@.connect_error(src, dst) is None && final(self)@ == old(self)@.connected(
                    src,
                    dst,
                ),
                Err(e) => old(self)@.connect_error(src, dst) == Some(e) && final(self)@ == old(self)@,
            },
    {
        let src_slot = match self.find(src.module) {
            Some(i) => i,
            None => {
                return Err(RackError::InvalidModule);
            },
        };
        if dst.module.is_audio_output() {
            if src.channel >= self.slots[src_slot].outputs.len() {
                return Err(RackError::InvalidChannel);
            }
            self.tap = Some(Tap { src, slot: src_slot });
            Ok(())
        } else {
            let dst_slot = match self.find(dst.module) {
                Some(i) => i,
                None => {
                    return Err(RackError::InvalidModule);
                },
            };
            if src.channel >= self.slots[src_slot].outputs.len() || dst.channel
                >= self.slots[dst_slot].inputs.len() {
                return Err(RackError::InvalidChannel);
            }
            self.wires.push(Wire { src, dst, src_slot, dst_slot });
            proof {
                assert(final(self)@.cables =~= old(self)@.cables.push((src, dst)));
                assert forall|i: int| 0 <= i < self.wires@.len() implies wire_fits(
                    self.slots@,
                    #[trigger] self.wires@[i],
                ) by {
                    if i < old(self).wires@.len() {
                        assert(self.wires@[i] == old(self).wires@[i]);
                    }
                }
            }
            Ok(())
        }
    }

    /// The index of the first cable from `src` to `dst`.
    fn find_wire(&self, src: ModuleOutput, dst: ModuleInput) -> (found: Option<usize>)
        ensures
            match found {
                Some(i) => i < self.wires@.len() && self@.first_cable(src, dst) == Some(i as int)
                    && self.wires@[i as int].src == src && self.wires@[i as int].dst == dst,
                None => !self@.cables.contains((src, dst)),
            },
    {
        let mut i: usize = 0;
        while i < self.wires.len()
            invariant
                0 <= i <= self.wires@.len(),
                forall|k: int| 0 <= k < i ==> (#[trigger] self@.cables[k]) != (src, dst),
            decreases self.wires@.len() - i,
        {
            if self.wires[i].src == src && self.wires[i].dst == dst {
                proof {
                    assert(self@.cables[i as int] == (src, dst));
                    self@.cables.index_of_first_ensures((src, dst));
                }
                return Some(i);
            }
            i += 1;
        }
        None
    }

    /// Pulls the cable from `src` to `dst`, the first where several run,
    /// and leaves the input unpatched, or, where `dst` belongs to the audio
    /// output, disconnects the audio output. The cables that stay keep their
    /// order.
    ///
    /// The request is refused, and the rack left as it was, when no such
    /// cable is plugged in.
    pub fn disconnect(&mut self, src: ModuleOutput, dst: ModuleInput) -> (result: Result<(), RackError>)
        requires
            old(self).wf(),
        ensures
            final(self).wf(),
            match result {
                Ok(()) => old(self)@.can_disconnect(src, dst) && final(self)@ == old(self)@.disconnected(
                    src,
                    dst,
                ),
                Err(e) => e == RackError::NotConnected && !old(self)@.can_disconnect(src, dst)
                    && final(self)@ == old(self)@,
            },
    {
        if dst.module.is_audio_output() {
            self.tap = None;
            return Ok(());
        }
        let i = match self.find_wire(src, dst) {
            Some(i) => i,
            None => {
                return Err(RackError::NotConnected);
            },
        };
        let wire = self.wires.remove(i);
        let slot = &mut self.slots[wire.dst_slot];
        slot.inputs[dst.channel] = None;
        proof {
            let k = wire.dst_slot as int;
            lemma_update_slot(old(self).slots@, self.slots@, k);
            lemma_place(old(self).slots@, k);
            assert(old(self).wires@[i as int] == wire);
            assert(wire_fits(old(self).slots@, wire));
            assert(self.slots@[k].inputs@ == old(self).slots@[k].inputs@.update(dst.channel as int, None));
            assert(self.slots@[k].state() == (UnitState {
                inputs: old(self)@.units[dst.module].inputs.update(dst.channel as int, None),
                ..old(self)@.units[dst.module]
            }));
            assert(self@.units =~= old(self)@.disconnected(src, dst).units);
            assert(self@.cables =~= old(self)@.disconnected(src, dst).cables);
            assert(old(self)@.cables[i as int] == (src, dst));
            assert forall|j: int| 0 <= j < self.wires@.len() implies wire_fits(
                self.slots@,
                #[trigger] self.wires@[j],
            ) by {
                let w = self.wires@[j];
                assert(w == old(self).wires@[j] || w == old(self).wires@[j + 1]);
                assert(wire_fits(old(self).slots@, w));
            }
        }
        Ok(())
    }

    /// Takes the wires out that no longer fit after the unit at place `k`,
    /// held under `handle`, has come to have `inputs` and `outputs` channels.
    fn prune(&mut self, Ghost(before): Ghost<Seq<Slot<U>>>, k: usize, handle: ModuleHandle, inputs: usize, outputs: usize)
        requires
            distinct(old(self).slots@),
            k < old(self).slots@.len(),
            before.len() == old(self).slots@.len(),
            old(self).slots@[k as int].handle == handle,
            old(self).slots@[k as int].inputs@.len() == inputs,
            old(self).slots@[k as int].outputs@.len() == outputs,
            forall|j: int| 0 <= j < before.len() && j != k ==> old(self).slots@[j] == before[j],
            before[k as int].handle == handle,
            forall|i: int| 0 <= i < old(self).wires@.len() ==> wire_fits(before, #[trigger] old(self).wires@[i]),
            old(self).tap matches Some(tap) ==> output_at(before, tap.src, tap.slot),
        ensures
            final(self).wf(),
            final(self).slots == old(self).slots,
            final(self).sample_rate == old(self).sample_rate,
            final(self)@.cables == old(self)@.cables.filter(
                |c: Cable| RackState::<U>::survives(handle, inputs, outputs, c),
            ),
            final(self)@.output == (match old(self)@.output {
                Some(src) => if src.module == handle && src.channel >= outputs {
                    None
                } else {
                    Some(src)
                },
                None => None,
            }),
    {
        let ghost pred = |c: Cable| RackState::<U>::survives(handle, inputs, outputs, c);
        let ghost cables = old(self)@.cables;
        let mut kept: Vec<Wire> = Vec::new();
        let mut i: usize = 0;
        proof {
            assert(cables.take(0) =~= Seq::empty());
            assert(cables_of(kept@) =~= Seq::empty());
        }
        while i < self.wires.len()
            invariant
                0 <= i <= self.wires@.len(),
                self.wires == old(self).wires,
                self.slots == old(self).slots,
                cables == cables_of(self.wires@),
                pred == |c: Cable| RackState::<U>::survives(handle, inputs, outputs, c),
                distinct(self.slots@),
                k < self.slots@.len(),
                before.len() == self.slots@.len(),
                self.slots@[k as int].handle == handle,
                before[k as int].handle == handle,
                self.slots@[k as int].inputs@.len() == inputs,
                self.slots@[k as int].outputs@.len() == outputs,
                forall|j: int| 0 <= j < before.len() && j != k ==> self.slots@[j] == before[j],
                forall|j: int| 0 <= j < self.wires@.len() ==> wire_fits(before, #[trigger] self.wires@[j]),
                cables_of(kept@) == cables.take(i as int).filter(pred),
                forall|j: int| 0 <= j < kept@.len() ==> wire_fits(self.slots@, #[trigger] kept@[j]),
            decreases self.wires@.len() - i,
        {
            let wire = self.wires[i];
            let fits = (wire.src_slot != k || wire.src.channel < outputs) && (wire.dst_slot != k
                || wire.dst.channel < inputs);
            proof {
                assert(wire_fits(before, wire));
                assert(self.slots@[wire.src_slot as int].handle == wire.src.module);
                assert(self.slots@[wire.dst_slot as int].handle == wire.dst.module);
                assert(self.slots@[k as int].handle == handle);
                assert((wire.src_slot == k) == (wire.src.module == handle));
                assert((wire.dst_slot == k) == (wire.dst.module == handle));
                assert(fits ==> wire_fits(self.slots@, wire));
                assert(cables[i as int] == (wire.src, wire.dst));
                assert(fits == pred(cables[i as int]));
                assert(cables.take(i + 1).drop_last() =~= cables.take(i as int));
                assert(cables.take(i + 1).last() == cables[i as int]);
                reveal(Seq::filter);
            }
            if fits {
                kept.push(wire);
                proof {
                    assert(cables_of(kept@) =~= cables.take(i as int).filter(pred).push(cables[i as int]));
                }
            }
            i += 1;
        }
        proof {
            assert(cables.take(i as int) =~= cables);
        }
        self.wires = kept;
        self.tap = match self.tap {
            Some(tap) => if tap.slot == k && tap.src.channel >= outputs {
                None
            } else {
                Some(tap)
            },
            None => None,
        };
    }

    /// Puts a unit into the rack under `handle`, with `inputs` unpatched
    /// input channels and `outputs` silent output channels, after telling it
    /// the sample rate.
    ///
    /// Where the handle is taken, the new unit stands in for the old one, and
    /// what was patched to a channel that the new unit lacks is unpatched.
    pub fn add_audio_unit(&mut self, handle: ModuleHandle, inputs: usize, outputs: usize, audio_unit: U)
        requires
            old(self).wf(),
        ensures
            final(self).wf(),
            final(self)@.units.contains_key(handle),
            audio_unit.retuned(old(self)@.sample_rate, &final(self)@.units[handle].unit),
            final(self)@ == old(self)@.with_unit(handle, final(self)@.units[handle].unit, inputs, outputs),
    {
        let mut audio_unit = audio_unit;
        audio_unit.reset(self.sample_rate);
        let slot = Slot { handle, unit: audio_unit, inputs: unpatched(inputs), outputs: silent(outputs) };
        let ghost fresh = slot.state();
        proof {
            assert(fresh.inputs =~= fresh_unit(slot.unit, inputs, outputs).inputs);
            assert(fresh.outputs =~= fresh_unit(slot.unit, inputs, outputs).outputs);
        }
        match self.find(handle) {
            Some(k) => {
                let ghost before = self.slots@;
                self.slots[k] = slot;
                proof {
                    lemma_update_slot(before, self.slots@, k as int);
                }
                self.prune(Ghost(before), k, handle, inputs, outputs);
                proof {
                    lemma_place(self.slots@, k as int);
                }
            },
            None => {
                proof {
                    lemma_push_slot(self.slots@, slot);
                    let pred = |c: Cable| RackState::<U>::survives(handle, inputs, outputs, c);
                    assert forall|i: int| 0 <= i < self@.cables.len() implies pred(#[trigger] self@.cables[i]) by {
                        let w = self.wires@[i];
                        assert(wire_fits(self.slots@, w));
                        lemma_place(self.slots@, w.src_slot as int);
                        lemma_place(self.slots@, w.dst_slot as int);
                    }
                    lemma_filter_keeps_all(self@.cables, pred);
                    if let Some(tap) = self.tap {
                        lemma_place(self.slots@, tap.slot as int);
                    }
                }
                self.slots.push(slot);
                proof {
                    assert forall|i: int| 0 <= i < self.wires@.len() implies wire_fits(
                        self.slots@,
                        #[trigger] self.wires@[i],
                    ) by {
                        let w = self.wires@[i];
                        assert(wire_fits(old(self).slots@, w));
                    }
                    lemma_place(self.slots@, self.slots@.len() - 1);
                }
            },
        }
    }

    /// Has `module` make a unit and puts it in under the handle that counts
    /// the units already there.
    pub fn add_module<M: Module<Unit = U>>(&mut self, module: &M) -> (handle: ModuleHandle)
        requires
            old(self).wf(),
        ensures
            final(self).wf(),
            handle.0 == old(self)@.units.len(),
            final(self)@.units.contains_key(handle),
            old(self)@.installs(module, handle, final(self)@),
    {
        let handle = ModuleHandle(self.len());
        let unit = module.create_audio_unit();
        self.add_audio_unit(handle, module.inputs(), module.outputs(), unit);
        handle
    }

    /// The same as [`Rack::add_module`], for a module that is given away.
    pub fn take_module<M: Module<Unit = U>>(&mut self, module: M) -> (handle: ModuleHandle)
        requires
            old(self).wf(),
        ensures
            final(self).wf(),
            handle.0 == old(self)@.units.len(),
            final(self)@.units.contains_key(handle),
            old(self)@.installs(&module, handle, final(self)@),
    {
        self.add_module(&module)
    }

    /// Tells every unit the sample rate. To be called before the first tick
    /// and whenever the rate changes.
    pub fn reset(&mut self, sample_rate: usize)
        requires
            old(self).wf(),
        ensures
            final(self).wf(),
            old(self)@.retunes_to(sample_rate, final(self)@),
    {
        self.sample_rate = sample_rate;
        let mut i: usize = 0;
        while i < self.slots.len()
            invariant
                0 <= i <= self.slots@.len(),
                old(self).wf(),
                self.wires == old(self).wires,
                self.tap == old(self).tap,
                self.sample_rate == sample_rate,
                self.slots@.len() == old(self).slots@.len(),
                forall|j: int|
                    0 <= j < self.slots@.len() ==> {
                        &&& (#[trigger] self.slots@[j]).handle == old(self).slots@[j].handle
                        &&& self.slots@[j].inputs@ == old(self).slots@[j].inputs@
                        &&& self.slots@[j].outputs@ == old(self).slots@[j].outputs@
                    },
                forall|j: int|
                    0 <= j < i ==> old(self).slots@[j].unit.retuned(sample_rate, &(#[trigger] self.slots@[j]).unit),
                forall|j: int| i <= j < self.slots@.len() ==> (#[trigger] self.slots@[j]).unit == old(self).slots@[j].unit,
            decreases self.slots@.len() - i,
        {
            let slot = &mut self.slots[i];
            slot.unit.reset(sample_rate);
            i += 1;
        }
        proof {
            let before = old(self).slots@;
            let after = self.slots@;
            lemma_same_handles(before, after);
            assert forall|j: int| 0 <= j < self.wires@.len() implies wire_fits(after, #[trigger] self.wires@[j]) by {
                assert(wire_fits(before, old(self).wires@[j]));
            }
            assert forall|h: ModuleHandle| #[trigger] old(self)@.units.contains_key(h) implies {
                &&& self@.units[h].inputs == old(self)@.units[h].inputs
                &&& self@.units[h].outputs == old(self)@.units[h].outputs
                &&& old(self)@.units[h].unit.retuned(sample_rate, &self@.units[h].unit)
            } by {
                lemma_held(before, h);
                let j = place(before, h);
                assert(after[j].handle == h);
            }
        }
    }

    /// Advances the whole rack by one sample and returns the level at the
    /// audio output.
    ///
    /// First every cable delivers the level that its source holds, one
    /// cable after the other in the order of the cable list; only then does
    /// every unit run, once. A cable therefore always carries what its source put out on
    /// the tick before, whatever the order in which the units run, and a
    /// patch that feeds back on itself is a loop with one sample of delay.
    pub fn tick(&mut self) -> (level: Voltage)
        requires
            old(self).wf(),
        ensures
            final(self).wf(),
            old(self)@.steps_to(final(self)@),
            level == final(self)@.sink_level(),
    {
        let ghost start = self@;
        let ghost before = self.slots@;
        proof {
            assert forall|j: int, c: int|
                0 <= j < before.len() && 0 <= c < before[j].inputs@.len() implies (#[trigger] before[j].inputs@[c])
                == start.fed(0, ModuleInput { module: before[j].handle, channel: c as usize }) by {
                lemma_place(before, j);
                assert(before[j].inputs.len() == before[j].inputs@.len());
            }
        }
        let mut k: usize = 0;
        while k < self.wires.len()
            invariant
                0 <= k <= self.wires@.len(),
                old(self).wf(),
                start == old(self)@,
                before == old(self).slots@,
                self.wires == old(self).wires,
                self.tap == old(self).tap,
                self.sample_rate == old(self).sample_rate,
                self.slots@.len() == before.len(),
                forall|j: int|
                    0 <= j < self.slots@.len() ==> {
                        &&& (#[trigger] self.slots@[j]).handle == before[j].handle
                        &&& self.slots@[j].unit == before[j].unit
                        &&& self.slots@[j].outputs@ == before[j].outputs@
                        &&& self.slots@[j].inputs@.len() == before[j].inputs@.len()
                    },
                forall|j: int, c: int|
                    0 <= j < self.slots@.len() && 0 <= c < before[j].inputs@.len() ==> (
                    #[trigger] self.slots@[j].inputs@[c]) == start.fed(
                        k as nat,
                        ModuleInput { module: before[j].handle, channel: c as usize },
                    ),
            decreases self.wires@.len() - k,
        {
            let wire = self.wires[k];
            proof {
                assert(wire_fits(before, wire));
                assert(self.slots@[wire.src_slot as int].handle == before[wire.src_slot as int].handle);
                assert(self.slots@[wire.dst_slot as int].handle == before[wire.dst_slot as int].handle);
            }
            let level = self.slots[wire.src_slot].outputs[wire.src.channel];
            let ghost held = self.slots@;
            let slot = &mut self.slots[wire.dst_slot];
            slot.inputs[wire.dst.channel] = Some(level);
            proof {
                lemma_place(before, wire.src_slot as int);
                assert(start.cables[k as int] == (wire.src, wire.dst));
                assert(level == start.level(wire.src));
                assert forall|j: int, c: int|
                    0 <= j < self.slots@.len() && 0 <= c < before[j].inputs@.len() implies (
                #[trigger] self.slots@[j].inputs@[c]) == start.fed(
                    (k + 1) as nat,
                    ModuleInput { module: before[j].handle, channel: c as usize },
                ) by {
                    let dst = ModuleInput { module: before[j].handle, channel: c as usize };
                    assert(before[j].inputs.len() == before[j].inputs@.len());
                    assert(held[wire.dst_slot as int].inputs@.len() == before[wire.dst_slot as int].inputs@.len());
                    if j == wire.dst_slot && c == wire.dst.channel {
                        assert(dst == wire.dst);
                        assert(self.slots@[j].inputs@[c] == Some(level));
                    } else {
                        assert(held[j].inputs@[c] == start.fed(k as nat, dst));
                        assert(self.slots@[j].inputs@[c] == held[j].inputs@[c]);
                        if dst == wire.dst {
                            assert(before[j].handle == before[wire.dst_slot as int].handle);
                            assert(j == wire.dst_slot);
                        }
                        assert(start.cables[k as int].1 != dst);
                    }
                }
            }
            k += 1;
        }
        let ghost patched = self.slots@;
        let mut i: usize = 0;
        while i < self.slots.len()
            invariant
                0 <= i <= self.slots@.len(),
                self.wires == old(self).wires,
                self.tap == old(self).tap,
                self.sample_rate == old(self).sample_rate,
                self.slots@.len() == patched.len(),
                forall|j: int|
                    0 <= j < self.slots@.len() ==> {
                        &&& (#[trigger] self.slots@[j]).handle == patched[j].handle
                        &&& self.slots@[j].inputs@ == patched[j].inputs@
                        &&& self.slots@[j].outputs@.len() == patched[j].outputs@.len()
                    },
                forall|j: int|
                    0 <= j < i ==> patched[j].unit.ticked(
                        patched[j].inputs@,
                        patched[j].outputs@,
                        &(#[trigger] self.slots@[j]).unit,
                        self.slots@[j].outputs@,
                    ),
                forall|j: int|
                    i <= j < self.slots@.len() ==> (#[trigger] self.slots@[j]).unit == patched[j].unit
                        && self.slots@[j].outputs@ == patched[j].outputs@,
            decreases self.slots@.len() - i,
        {
            let slot = &mut self.slots[i];
            slot.unit.tick(slot.inputs.as_slice(), slot.outputs.as_mut_slice());
            i += 1;
        }
        proof {
            let after = self.slots@;
            lemma_same_handles(before, after);
            assert forall|j: int| 0 <= j < self.wires@.len() implies wire_fits(after, #[trigger] self.wires@[j]) by {
                assert(wire_fits(before, old(self).wires@[j]));
            }
            assert forall|h: ModuleHandle| #[trigger] start.units.contains_key(h) implies {
                &&& self@.units[h].inputs == start.patched_inputs(h)
                &&& self@.units[h].outputs.len() == start.units[h].outputs.len()
                &&& start.units[h].unit.ticked(
                    start.patched_inputs(h),
                    start.units[h].outputs,
                    &self@.units[h].unit,
                    self@.units[h].outputs,
                )
            } by {
                lemma_held(before, h);
                let j = place(before, h);
                assert(after[j].handle == h);
                assert(patched[j].handle == h);
                assert(patched[j].inputs@ =~= start.patched_inputs(h)) by {
                    assert forall|c: int| 0 <= c < patched[j].inputs@.len() implies patched[j].inputs@[c]
                        == start.patched_inputs(h)[c] by {
                        assert(before[j].inputs.len() == before[j].inputs@.len());
                        assert(patched[j].inputs@[c] == start.fed(
                            start.cables.len(),
                            ModuleInput { module: before[j].handle, channel: c as usize },
                        ));
                    }
                }
            }
        }
        match self.tap {
            Some(tap) => {
                proof {
                    assert(output_at(before, tap.src, tap.slot));
                    assert(self.slots@[tap.slot as int].handle == before[tap.slot as int].handle);
                    lemma_place(self.slots@, tap.slot as int);
                }
                self.slots[tap.slot].outputs[tap.src.channel]
            },
            None => ZERO_VOLTS,
        }
    }

    proof fn lemma_count(&self)
        requires
            self.wf(),
        ensures
            self@.units.dom().finite(),
            self@.units.len() == self.slots@.len(),
    {
        let slots = self.slots@;
        Self::lemma_count_below(slots, slots.len());
        assert(units_of(slots).dom() =~= Self::handles_below(slots, slots.len())) by {
            assert forall|h: ModuleHandle| units_of(slots).dom().contains(h) implies Self::handles_below(
                slots,
                slots.len(),
            ).contains(h) by {
                lemma_held(slots, h);
            }
        }
    }

    proof fn lemma_count_below(slots: Seq<Slot<U>>, n: nat)
        requires
            n <= slots.len(),
            distinct(slots),
        ensures
            Self::handles_below(slots, n).finite(),
            Self::handles_below(slots, n).len() == n,
        decreases n,
    {
        if n == 0 {
            assert(Self::handles_below(slots, n) =~= Set::empty());
        } else {
            let before = Self::handles_below(slots, (n - 1) as nat);
            Self::lemma_count_below(slots, (n - 1) as nat);
            assert(Self::handles_below(slots, n) =~= before.insert(slots[n - 1].handle));
            assert(!before.contains(slots[n - 1].handle));
        }
    }
}

} // verus!
