//! What the audio callback does with a rack: it carries out the requests
//! that have come in from the control side, in the order in which they came,
//! and then computes one block of samples.

use vstd::prelude::*;
use crate::module::{AudioUnit, ModuleHandle, ModuleInput, ModuleOutput};
use crate::rack::Rack;
use crate::state::{is_run, RackError, RackState};
use crate::voltage::Voltage;

verus! {

/// A request from the control side to change the patch. Nothing is sent
/// back: a request that is refused is reported where it is carried out.
pub enum AudioMessage<U> {
    /// Put a unit in under a handle, with so many input and output channels.
    AddModule(ModuleHandle, usize, usize, U),
    /// Plug a cable in.
    ConnectModules(ModuleOutput, ModuleInput),
    /// Pull a cable out.
    DisconnectModules(ModuleOutput, ModuleInput),
}

/// Whether carrying out `message` on the rack `before` may leave the rack
/// `after` and the outcome `result`.
pub open spec fn carried_out<U: AudioUnit>(
    before: RackState<U>,
    message: AudioMessage<U>,
    after: RackState<U>,
    result: Result<(), RackError>,
) -> bool {
    match message {
        AudioMessage::AddModule(handle, inputs, outputs, unit) => {
            &&& result is Ok
            &&& after.units.contains_key(handle)
            &&& unit.retuned(before.sample_rate, &after.units[handle].unit)
            &&& after == before.with_unit(handle, after.units[handle].unit, inputs, outputs)
        },
        AudioMessage::ConnectModules(src, dst) => match before.connect_error(src, dst) {
            None => result is Ok && after == before.connected(src, dst),
            Some(e) => result == Err::<(), RackError>(e) && after == before,
        },
        AudioMessage::DisconnectModules(src, dst) => if before.can_disconnect(src, dst) {
            result is Ok && after == before.disconnected(src, dst)
        } else {
            result == Err::<(), RackError>(RackError::NotConnected) && after == before
        },
    }
}

/// Whether `samples` is the block that a rack puts out on its way through
/// `run`: one sample per tick, each the level at the audio output after that
/// tick.
pub open spec fn is_block<U: AudioUnit>(run: Seq<RackState<U>>, samples: Seq<Voltage>) -> bool {
    &&& run.len() == samples.len() + 1
    &&& is_run(run)
    &&& forall|k: int| 0 <= k < samples.len() ==> #[trigger] samples[k] == run[k + 1].sink_level()
}

impl<U: AudioUnit> Rack<U> {
    /// Carries out one request. A request that is refused leaves the rack as
    /// it was; it is for the caller to report it.
    pub fn apply(&mut self, message: AudioMessage<U>) -> (result: Result<(), RackError>)
        requires
            old(self).wf(),
        ensures
            final(self).wf(),
            carried_out(old(self)@, message, final(self)@, result),
    {
        match message {
            AudioMessage::AddModule(handle, inputs, outputs, unit) => {
                self.add_audio_unit(handle, inputs, outputs, unit);
                Ok(())
            },
            AudioMessage::ConnectModules(src, dst) => self.connect(src, dst),
            AudioMessage::DisconnectModules(src, dst) => self.disconnect(src, dst),
        }
    }

    /// Computes one block: ticks once for every sample of `samples`, first
    /// to last, and writes the level at the audio output after each tick.
    pub fn render(&mut self, samples: &mut [Voltage])
        requires
            old(self).wf(),
        ensures
            final(self).wf(),
            final(samples)@.len() == old(samples)@.len(),
            exists|run: Seq<RackState<U>>|
                run[0] == old(self)@ && run.last() == final(self)@ && #[trigger] is_block(run, final(samples)@),
    {
        let ghost mut run: Seq<RackState<U>> = seq![self@];
        let n = samples.len();
        let mut i: usize = 0;
        while i < n
            invariant
                0 <= i <= n,
                n == samples@.len(),
                samples@.len() == old(samples)@.len(),
                self.wf(),
                run.len() == i + 1,
                run[0] == old(self)@,
                run.last() == self@,
                is_run(run),
                forall|k: int| 0 <= k < i ==> #[trigger] samples@[k] == run[k + 1].sink_level(),
            decreases n - i,
        {
            let ghost before = run;
            let level = self.tick();
            samples[i] = level;
            proof {
                run = before.push(self@);
                assert forall|k: int| 0 <= k < run.len() - 1 implies (#[trigger] run[k]).steps_to(run[k + 1]) by {
                    if k < before.len() - 1 {
                        assert(before[k].steps_to(before[k + 1]));
                    }
                }
            }
            i += 1;
        }
        proof {
            assert(is_block(run, samples@));
        }
    }
}

} // verus!
