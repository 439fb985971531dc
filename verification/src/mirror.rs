//! Racks that differ in nothing but the handles of their units.
//!
//! A patch that is written down and built anew has new handles for its
//! modules. What is heard does not depend on them: two racks that are alike
//! but for a renaming of the handles stay alike and put out the same samples.

use vstd::prelude::*;
use crate::module::{AudioUnit, ModuleHandle, ModuleInput, ModuleOutput};
use crate::patch::{last_index, lemma_last_index, read_back, written_down, Connection};
use crate::state::{is_deterministic, is_run, lemma_filter_keeps_all, Cable, RackState};

verus! {

/// A renaming of handles.
pub type Renaming = spec_fn(ModuleHandle) -> ModuleHandle;

/// Whether `f` gives different handles of `handles` different names, keeps
/// the handle of the audio output, and gives it to no other.
pub open spec fn is_renaming(f: Renaming, handles: Set<ModuleHandle>) -> bool {
    &&& forall|a: ModuleHandle, b: ModuleHandle|
        handles.contains(a) && handles.contains(b) && #[trigger] f(a) == #[trigger] f(b) ==> a == b
    &&& f(ModuleHandle::sink()) == ModuleHandle::sink()
    &&& forall|a: ModuleHandle| handles.contains(a) && !a.is_sink() ==> !(#[trigger] f(a)).is_sink()
}

/// An output under a renaming.
pub open spec fn renamed_output(f: Renaming, src: ModuleOutput) -> ModuleOutput {
    ModuleOutput { module: f(src.module), channel: src.channel }
}

/// An input under a renaming.
pub open spec fn renamed_input(f: Renaming, dst: ModuleInput) -> ModuleInput {
    ModuleInput { module: f(dst.module), channel: dst.channel }
}

/// A cable under a renaming.
pub open spec fn renamed_cable(f: Renaming, cable: Cable) -> Cable {
    (renamed_output(f, cable.0), renamed_input(f, cable.1))
}

impl<U: AudioUnit> RackState<U> {
    /// Whether `other` is this rack with every handle `h` renamed to `f(h)`:
    /// the same units with the same buffers, and the same cables in the same
    /// order.
    pub open spec fn mirrors(self, other: Self, f: Renaming) -> bool {
        &&& other.sample_rate == self.sample_rate
        &&& other.cables.len() == self.cables.len()
        &&& forall|i: int|
            0 <= i < self.cables.len() ==> #[trigger] other.cables[i] == renamed_cable(f, self.cables[i])
        &&& other.output == match self.output {
            Some(src) => Some(renamed_output(f, src)),
            None => None,
        }
        &&& forall|h: ModuleHandle| #[trigger]
            self.units.contains_key(h) ==> other.units.contains_key(f(h)) && other.units[f(h)]
                == self.units[h]
        &&& forall|g: ModuleHandle| #[trigger]
            other.units.contains_key(g) ==> exists|h: ModuleHandle|
                self.units.contains_key(h) && #[trigger] f(h) == g
    }

    /// What the cables deliver does not depend on the handles.
    pub proof fn lemma_mirror_is_fed_alike(self, other: Self, f: Renaming, n: nat, dst: ModuleInput)
        requires
            self.wf(),
            is_renaming(f, self.units.dom()),
            self.mirrors(other, f),
            n <= self.cables.len(),
            self.units.contains_key(dst.module),
        ensures
            other.fed(n, renamed_input(f, dst)) == self.fed(n, dst),
        decreases n,
    {
        if n > 0 {
            let cable = self.cables[n - 1];
            assert(self.cable_fits(cable));
            assert(other.cables[n - 1] == renamed_cable(f, cable));
            assert(self.units.contains_key(cable.0.module));
            assert(self.units.contains_key(cable.1.module));
            if cable.1 != dst {
                if renamed_input(f, cable.1) == renamed_input(f, dst) {
                    assert(f(cable.1.module) == f(dst.module));
                }
                self.lemma_mirror_is_fed_alike(other, f, (n - 1) as nat, dst);
            }
        }
    }

    /// With deterministic units, a tick keeps two racks alike that are alike
    /// but for the handles, and both put out the same sample.
    pub proof fn lemma_mirror_steps_alike(self, other: Self, f: Renaming, next: Self, other_next: Self)
        requires
            is_deterministic::<U>(),
            self.wf(),
            is_renaming(f, self.units.dom()),
            self.mirrors(other, f),
            self.steps_to(next),
            other.steps_to(other_next),
        ensures
            next.mirrors(other_next, f),
            next.sink_level() == other_next.sink_level(),
    {
        assert forall|h: ModuleHandle| #[trigger] next.units.contains_key(h) implies other_next.units.contains_key(
            f(h),
        ) && other_next.units[f(h)] == next.units[h] by {
            assert(self.units.contains_key(h));
            assert(other.units.contains_key(f(h)));
            let here = self.patched_inputs(h);
            let there = other.patched_inputs(f(h));
            assert(here =~= there) by {
                assert forall|c: int| 0 <= c < here.len() implies here[c] == there[c] by {
                    let dst = ModuleInput { module: h, channel: c as usize };
                    self.lemma_mirror_is_fed_alike(other, f, self.cables.len(), dst);
                    assert(renamed_input(f, dst) == (ModuleInput { module: f(h), channel: c as usize }));
                }
            }
            let unit = self.units[h].unit;
            assert(unit.ticked(here, self.units[h].outputs, &next.units[h].unit, next.units[h].outputs));
            assert(unit.ticked(
                here,
                self.units[h].outputs,
                &other_next.units[f(h)].unit,
                other_next.units[f(h)].outputs,
            ));
        }
        assert forall|g: ModuleHandle| #[trigger] other_next.units.contains_key(g) implies exists|h: ModuleHandle|
            next.units.contains_key(h) && #[trigger] f(h) == g by {
            assert(other.units.contains_key(g));
            let h = choose|h: ModuleHandle| self.units.contains_key(h) && #[trigger] f(h) == g;
            assert(next.units.contains_key(h));
        }
        if let Some(src) = self.output {
            assert(self.units.contains_key(src.module));
            assert(next.units.contains_key(src.module));
        }
    }
}

/// With deterministic units, two racks that are alike but for the handles
/// put out the same samples for as long as they run, bit for bit.
pub proof fn lemma_mirror_sounds_alike<U: AudioUnit>(
    one: Seq<RackState<U>>,
    other: Seq<RackState<U>>,
    f: Renaming,
    n: int,
)
    requires
        is_deterministic::<U>(),
        is_run(one),
        is_run(other),
        0 <= n < one.len(),
        n < other.len(),
        one[0].wf(),
        is_renaming(f, one[0].units.dom()),
        one[0].mirrors(other[0], f),
    ensures
        one[n].wf(),
        one[n].units.dom() == one[0].units.dom(),
        one[n].mirrors(other[n], f),
        n > 0 ==> one[n].sink_level() == other[n].sink_level(),
    decreases n,
{
    if n > 0 {
        lemma_mirror_sounds_alike(one, other, f, n - 1);
        assert(one[n - 1].steps_to(one[n]));
        assert(other[n - 1].steps_to(other[n]));
        one[n - 1].lemma_step_keeps_wf(one[n]);
        one[n - 1].lemma_mirror_steps_alike(other[n - 1], f, one[n], other[n]);
    }
}

impl<U: AudioUnit> RackState<U> {
    /// Putting the same unit into two racks that are alike but for the
    /// handles, under a new handle here and under its new name there, leaves
    /// them alike.
    pub proof fn lemma_mirror_with_unit(
        self,
        other: Self,
        f: Renaming,
        handle: ModuleHandle,
        unit: U,
        inputs: usize,
        outputs: usize,
    )
        requires
            self.wf(),
            !self.units.contains_key(handle),
            is_renaming(f, self.units.dom().insert(handle)),
            self.mirrors(other, f),
        ensures
            self.with_unit(handle, unit, inputs, outputs).wf(),
            self.with_unit(handle, unit, inputs, outputs).mirrors(
                other.with_unit(f(handle), unit, inputs, outputs),
                f,
            ),
    {
        let here = self.with_unit(handle, unit, inputs, outputs);
        let there = other.with_unit(f(handle), unit, inputs, outputs);
        let keep_here = |c: Cable| Self::survives(handle, inputs, outputs, c);
        let keep_there = |c: Cable| Self::survives(f(handle), inputs, outputs, c);
        assert forall|i: int| 0 <= i < self.cables.len() implies keep_here(#[trigger] self.cables[i]) by {
            assert(self.cable_fits(self.cables[i]));
        }
        assert forall|i: int| 0 <= i < other.cables.len() implies keep_there(#[trigger] other.cables[i]) by {
            let cable = self.cables[i];
            assert(self.cable_fits(cable));
            assert(other.cables[i] == renamed_cable(f, cable));
            assert(self.units.dom().insert(handle).contains(cable.0.module));
            assert(self.units.dom().insert(handle).contains(cable.1.module));
            assert(self.units.dom().insert(handle).contains(handle));
        }
        lemma_filter_keeps_all(self.cables, keep_here);
        lemma_filter_keeps_all(other.cables, keep_there);
        assert(here.cables == self.cables);
        assert(there.cables == other.cables);
        if let Some(src) = self.output {
            assert(self.units.contains_key(src.module));
            assert(self.units.dom().insert(handle).contains(src.module));
            assert(self.units.dom().insert(handle).contains(handle));
        }
        assert forall|h: ModuleHandle| #[trigger] here.units.contains_key(h) implies there.units.contains_key(
            f(h),
        ) && there.units[f(h)] == here.units[h] by {
            if h != handle {
                assert(self.units.contains_key(h));
                assert(self.units.dom().insert(handle).contains(h));
                assert(self.units.dom().insert(handle).contains(handle));
                assert(f(h) != f(handle));
            }
        }
        assert forall|g: ModuleHandle| #[trigger] there.units.contains_key(g) implies exists|h: ModuleHandle|
            here.units.contains_key(h) && #[trigger] f(h) == g by {
            if g == f(handle) {
                assert(here.units.contains_key(handle));
            } else {
                assert(other.units.contains_key(g));
                let h = choose|h: ModuleHandle| self.units.contains_key(h) && #[trigger] f(h) == g;
                assert(here.units.contains_key(h));
            }
        }
        assert(here.units.dom() =~= self.units.dom().insert(handle));
        assert forall|i: int| 0 <= i < here.cables.len() implies here.cable_fits(#[trigger] here.cables[i]) by {
            assert(self.cable_fits(self.cables[i]));
        }
        if let Some(src) = here.output {
            assert(self.has_output(src));
        }
    }

    /// A cable that can be plugged in here can be plugged in there under the
    /// new names, and leaves the two racks alike.
    pub proof fn lemma_mirror_connected(self, other: Self, f: Renaming, src: ModuleOutput, dst: ModuleInput)
        requires
            self.wf(),
            is_renaming(f, self.units.dom()),
            self.mirrors(other, f),
            self.connect_error(src, dst) is None,
        ensures
            other.connect_error(renamed_output(f, src), renamed_input(f, dst)) is None,
            self.connected(src, dst).mirrors(
                other.connected(renamed_output(f, src), renamed_input(f, dst)),
                f,
            ),
    {
        assert(self.units.contains_key(src.module));
        assert(other.units.contains_key(f(src.module)));
        if dst.module.is_sink() {
        } else {
            assert(self.units.contains_key(dst.module));
            assert(other.units.contains_key(f(dst.module)));
            assert(!f(dst.module).is_sink());
            let here = self.connected(src, dst);
            let there = other.connected(renamed_output(f, src), renamed_input(f, dst));
            assert forall|i: int| 0 <= i < here.cables.len() implies #[trigger] there.cables[i] == renamed_cable(
                f,
                here.cables[i],
            ) by {
                if i < self.cables.len() {
                    assert(other.cables[i] == renamed_cable(f, self.cables[i]));
                }
            }
        }
    }
}

/// The renaming that gives the module at each place of `before` the handle
/// at the same place of `after`, and leaves every other handle alone.
pub open spec fn renaming_of(before: Seq<ModuleHandle>, after: Seq<ModuleHandle>) -> Renaming {
    |h: ModuleHandle|
        if h.is_sink() {
            h
        } else {
            match last_index(before, before.len(), h) {
                Some(i) => after[i as int],
                None => h,
            }
        }
}

/// A connection under a renaming.
pub open spec fn renamed_connection(f: Renaming, c: Connection) -> Connection {
    Connection { output: renamed_output(f, c.output), input: renamed_input(f, c.input) }
}

/// A connection that is written down and read back for modules with new
/// handles is the connection that it was, under the renaming of the old
/// handles to the new.
pub proof fn lemma_connection_is_renamed(before: Seq<ModuleHandle>, after: Seq<ModuleHandle>, c: Connection)
    requires
        before.len() == after.len(),
        before.len() < usize::MAX,
        written_down(before, c) is Some,
    ensures
        read_back(after, written_down(before, c).unwrap()) == Some(
            renamed_connection(renaming_of(before, after), c),
        ),
{
    lemma_last_index(before, before.len(), c.output.module);
    lemma_last_index(before, before.len(), c.input.module);
}

/// Where the old handles are all different, and so are the new, and none of
/// them is that of the audio output, the renaming of the old to the new is a
/// renaming of the old handles.
pub proof fn lemma_renaming_of(before: Seq<ModuleHandle>, after: Seq<ModuleHandle>)
    requires
        before.len() == after.len(),
        before.len() <= usize::MAX,
        forall|i: int, j: int| 0 <= i < j < before.len() ==> before[i] != before[j],
        forall|i: int, j: int| 0 <= i < j < after.len() ==> after[i] != after[j],
        forall|i: int| 0 <= i < before.len() ==> !(#[trigger] before[i]).is_sink(),
        forall|i: int| 0 <= i < after.len() ==> !(#[trigger] after[i]).is_sink(),
    ensures
        is_renaming(renaming_of(before, after), before.to_set()),
        forall|i: int| 0 <= i < before.len() ==> renaming_of(before, after)(#[trigger] before[i]) == after[i],
{
    let f = renaming_of(before, after);
    assert forall|i: int| 0 <= i < before.len() implies f(#[trigger] before[i]) == after[i] by {
        lemma_last_index(before, before.len(), before[i]);
        let k = last_index(before, before.len(), before[i]).unwrap();
        assert(before[k as int] == before[i]);
        assert(k == i) by {
            if (k as int) < i {
                assert(before[k as int] != before[i]);
            }
            if i < (k as int) {
                assert(before[i] != before[k as int]);
            }
        }
    }
    assert forall|a: ModuleHandle, b: ModuleHandle|
        before.to_set().contains(a) && before.to_set().contains(b) && #[trigger] f(a) == #[trigger] f(
            b,
        ) implies a == b by {
        let i = choose|i: int| 0 <= i < before.len() && before[i] == a;
        let j = choose|j: int| 0 <= j < before.len() && before[j] == b;
        assert(f(before[i]) == after[i]);
        assert(f(before[j]) == after[j]);
        if i < j {
            assert(after[i] != after[j]);
        }
        if j < i {
            assert(after[j] != after[i]);
        }
    }
    assert forall|a: ModuleHandle| before.to_set().contains(a) && !a.is_sink() implies !(#[trigger] f(
        a,
    )).is_sink() by {
        let i = choose|i: int| 0 <= i < before.len() && before[i] == a;
        assert(f(before[i]) == after[i]);
    }
}

} // verus!
