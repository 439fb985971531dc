//! The patch as the control side keeps it: which modules there are, which
//! connections were asked for, and the shape in which a patch is kept for
//! later.

use vstd::prelude::*;
use crate::host::AudioMessage;
use crate::jack::JackInteraction;
use crate::module::{ModuleHandle, ModuleInput, ModuleOutput, AUDIO_OUTPUT_INDEX};

verus! {

/// A connection from an output to an input.
#[derive(Copy, Clone, Debug, PartialEq, Eq, Structural)]
pub struct Connection {
    pub output: ModuleOutput,
    pub input: ModuleInput,
}

/// A connection between modules that are named by their place in the list of
/// modules; the audio output is named by an index of its own.
#[derive(Copy, Clone, Debug, PartialEq, Eq, Structural)]
pub struct SerializedConnection {
    pub src_index: usize,
    pub src_channel: usize,
    pub dst_index: usize,
    pub dst_channel: usize,
}

/// A patch in the shape in which it is kept: the identifiers of the kinds of
/// its modules, in order, and its connections.
#[derive(Debug)]
pub struct SerializedPatch {
    pub modules: Vec<String>,
    pub connections: Vec<SerializedConnection>,
}

/// A module of a patch: the identifier of its kind and its handle.
#[derive(Debug)]
pub struct ModuleInstance {
    pub id: String,
    pub handle: ModuleHandle,
}

/// The modules and connections of a patch.
pub struct Patch {
    modules: Vec<ModuleInstance>,
    connections: Vec<Connection>,
}

/// A patch, as a value.
pub struct PatchState {
    /// The identifiers of the kinds of the modules.
    pub ids: Seq<Seq<char>>,
    /// The handles of the modules.
    pub handles: Seq<ModuleHandle>,
    /// The connections.
    pub connections: Seq<Connection>,
}

/// The index of the last of the first `n` handles that is `handle`.
pub open spec fn last_index(handles: Seq<ModuleHandle>, n: nat, handle: ModuleHandle) -> Option<usize>
    decreases n,
{
    if n == 0 {
        None
    } else if handles[n - 1] == handle {
        Some((n - 1) as usize)
    } else {
        last_index(handles, (n - 1) as nat, handle)
    }
}

/// The index under which a handle is written down: the audio output has an
/// index of its own, a module has its place in the list, the last one where
/// its handle occurs more than once, and any other handle has none.
pub open spec fn index_of(handles: Seq<ModuleHandle>, handle: ModuleHandle) -> Option<usize> {
    if handle.is_sink() {
        Some(AUDIO_OUTPUT_INDEX)
    } else {
        last_index(handles, handles.len(), handle)
    }
}

/// The handle that an index stands for.
pub open spec fn handle_at(handles: Seq<ModuleHandle>, index: usize) -> Option<ModuleHandle> {
    if index == AUDIO_OUTPUT_INDEX {
        Some(ModuleHandle::sink())
    } else if index < handles.len() {
        Some(handles[index as int])
    } else {
        None
    }
}

/// A connection as it is written down, where both of its ends can be.
pub open spec fn written_down(handles: Seq<ModuleHandle>, c: Connection) -> Option<SerializedConnection> {
    match (index_of(handles, c.output.module), index_of(handles, c.input.module)) {
        (Some(src_index), Some(dst_index)) => Some(
            SerializedConnection {
                src_index,
                src_channel: c.output.channel,
                dst_index,
                dst_channel: c.input.channel,
            },
        ),
        _ => None,
    }
}

/// The connection that a written connection stands for, where both of its
/// indices stand for something.
pub open spec fn read_back(handles: Seq<ModuleHandle>, s: SerializedConnection) -> Option<Connection> {
    match (handle_at(handles, s.src_index), handle_at(handles, s.dst_index)) {
        (Some(src), Some(dst)) => Some(
            Connection {
                output: ModuleOutput { module: src, channel: s.src_channel },
                input: ModuleInput { module: dst, channel: s.dst_channel },
            },
        ),
        _ => None,
    }
}

/// The index that a handle is written down under stands for that handle.
pub proof fn lemma_index_names_handle(handles: Seq<ModuleHandle>, handle: ModuleHandle)
    requires
        handles.len() <= usize::MAX,
        index_of(handles, handle) is Some,
    ensures
        handle_at(handles, index_of(handles, handle).unwrap()) == Some(handle),
{
    if !handle.is_sink() {
        lemma_last_index(handles, handles.len(), handle);
    }
}

/// What `last_index` finds is a place at which the handle stands.
pub proof fn lemma_last_index(handles: Seq<ModuleHandle>, n: nat, handle: ModuleHandle)
    requires
        n <= handles.len() <= usize::MAX,
    ensures
        match last_index(handles, n, handle) {
            Some(i) => i < n && handles[i as int] == handle && forall|j: int|
                i < j < n ==> handles[j] != handle,
            None => forall|j: int| 0 <= j < n ==> handles[j] != handle,
        },
    decreases n,
{
    if n > 0 && handles[n - 1] != handle {
        lemma_last_index(handles, (n - 1) as nat, handle);
    }
}

/// A connection that can be written down is read back as it was, by the
/// handles that it was written down with.
pub proof fn lemma_connection_round_trip(handles: Seq<ModuleHandle>, c: Connection)
    requires
        handles.len() <= usize::MAX,
        written_down(handles, c) is Some,
    ensures
        read_back(handles, written_down(handles, c).unwrap()) == Some(c),
{
    lemma_index_names_handle(handles, c.output.module);
    lemma_index_names_handle(handles, c.input.module);
}

/// The index of the first of `connections` that `wanted` holds of.
pub open spec fn first_index(connections: Seq<Connection>, wanted: spec_fn(Connection) -> bool) -> Option<int>
    decreases connections.len(),
{
    if connections.len() == 0 {
        None
    } else {
        match first_index(connections.drop_last(), wanted) {
            Some(k) => Some(k),
            None => if wanted(connections.last()) {
                Some(connections.len() - 1)
            } else {
                None
            },
        }
    }
}

/// What `first_index` finds is the first index at which `wanted` holds, and
/// it finds one wherever there is one.
pub proof fn lemma_first_index(connections: Seq<Connection>, wanted: spec_fn(Connection) -> bool)
    ensures
        match first_index(connections, wanted) {
            Some(k) => 0 <= k < connections.len() && wanted(connections[k]) && forall|j: int|
                0 <= j < k ==> !wanted(#[trigger] connections[j]),
            None => forall|j: int| 0 <= j < connections.len() ==> !wanted(#[trigger] connections[j]),
        },
    decreases connections.len(),
{
    if connections.len() > 0 {
        let front = connections.drop_last();
        lemma_first_index(front, wanted);
        assert forall|j: int| 0 <= j < front.len() implies front[j] == connections[j] by {}
        match first_index(front, wanted) {
            Some(k) => {
                assert forall|j: int| 0 <= j < k implies !wanted(#[trigger] connections[j]) by {
                    assert(front[j] == connections[j]);
                }
            },
            None => {
                assert forall|j: int| 0 <= j < front.len() implies !wanted(#[trigger] connections[j]) by {
                    assert(front[j] == connections[j]);
                }
            },
        }
    }
}

impl PatchState {
    /// Whether the patch can be written down: every connection runs between
    /// modules of the patch, or into the audio output.
    pub open spec fn can_be_saved(self) -> bool {
        forall|k: int| 0 <= k < self.connections.len() ==> written_down(self.handles, #[trigger] self.connections[k])
            is Some
    }

    /// The connections of the patch as they are written down.
    pub open spec fn saved_connections(self) -> Seq<SerializedConnection> {
        Seq::new(self.connections.len(), |k: int| written_down(self.handles, self.connections[k]).unwrap())
    }

    /// The index of the first connection that ends at `input`.
    pub open spec fn first_into(self, input: ModuleInput) -> Option<int> {
        first_index(self.connections, |c: Connection| c.input == input)
    }

    /// The connections without the one at index `k`: the others stay in the
    /// order in which they were.
    pub open spec fn without(self, k: int) -> Seq<Connection> {
        self.connections.remove(k)
    }

    /// The patch after the input `input` has been cleared: the first
    /// connection that ends there is gone.
    pub open spec fn input_cleared(self, input: ModuleInput) -> Self {
        match self.first_into(input) {
            Some(k) => PatchState { connections: self.without(k), ..self },
            None => self,
        }
    }

    /// Whether some connection starts at `output`.
    pub open spec fn feeds(self, output: ModuleOutput) -> bool {
        exists|k: int| 0 <= k < self.connections.len() && (#[trigger] self.connections[k]).output == output
    }

    /// The index of the first connection that starts at `output`.
    pub open spec fn first_from(self, output: ModuleOutput) -> Option<int> {
        first_index(self.connections, |c: Connection| c.output == output)
    }

    /// The patch after the output `output` has been cleared: as long as a
    /// connection starts there, the first one that does is taken out.
    pub open spec fn output_cleared(self, output: ModuleOutput) -> Self
        decreases self.connections.len(),
    {
        match self.first_from(output) {
            Some(k) => if 0 <= k < self.connections.len() {
                (PatchState { connections: self.without(k), ..self }).output_cleared(output)
            } else {
                self
            },
            None => self,
        }
    }

    /// The inputs that are unpatched when the output `output` is cleared, in
    /// the order in which their connections are taken out.
    pub open spec fn pulled_from(self, output: ModuleOutput) -> Seq<ModuleInput>
        decreases self.connections.len(),
    {
        match self.first_from(output) {
            Some(k) => if 0 <= k < self.connections.len() {
                seq![self.connections[k].input] + (PatchState { connections: self.without(k), ..self }).pulled_from(
                    output,
                )
            } else {
                Seq::empty()
            },
            None => Seq::empty(),
        }
    }

    /// Once an output has been cleared, no connection starts there, and the
    /// modules are what they were.
    pub proof fn lemma_output_cleared(self, output: ModuleOutput)
        ensures
            !self.output_cleared(output).feeds(output),
            self.output_cleared(output).ids == self.ids,
            self.output_cleared(output).handles == self.handles,
            self.output_cleared(output).connections.len() + self.pulled_from(output).len()
                == self.connections.len(),
        decreases self.connections.len(),
    {
        lemma_first_index(self.connections, |c: Connection| c.output == output);
        match self.first_from(output) {
            Some(k) => {
                (PatchState { connections: self.without(k), ..self }).lemma_output_cleared(output);
            },
            None => {
                if self.feeds(output) {
                    let k = choose|k: int|
                        0 <= k < self.connections.len() && (#[trigger] self.connections[k]).output == output;
                    assert(self.connections[k].output == output);
                }
            },
        }
    }
}

impl PatchState {
    /// The requests that disconnect `output` from each of `inputs`, in order.
    pub open spec fn pulls<U>(output: ModuleOutput, inputs: Seq<ModuleInput>) -> Seq<AudioMessage<U>> {
        Seq::new(inputs.len(), |i: int| AudioMessage::DisconnectModules(output, inputs[i]))
    }

    /// The requests that clear the input `input`.
    pub open spec fn input_pulls<U>(self, input: ModuleInput) -> Seq<AudioMessage<U>> {
        match self.first_into(input) {
            Some(k) => seq![AudioMessage::DisconnectModules(self.connections[k].output, input)],
            None => Seq::empty(),
        }
    }

    /// The patch after what the jacks asked for has been done. A cable that
    /// only hangs from a jack changes nothing.
    pub open spec fn handled(self, asked: JackInteraction) -> Self {
        match asked {
            JackInteraction::PendingInput(_) => self,
            JackInteraction::PendingOutput(_) => self,
            JackInteraction::CreateConnection(output, input) => PatchState {
                connections: self.input_cleared(input).connections.push(Connection { output, input }),
                ..self
            },
            JackInteraction::ClearInput(input) => self.input_cleared(input),
            JackInteraction::ClearOutput(output) => self.output_cleared(output),
        }
    }

    /// The requests that go to the rack when what the jacks asked for is
    /// done: an input is cleared before a new cable is plugged into it.
    pub open spec fn requests<U>(self, asked: JackInteraction) -> Seq<AudioMessage<U>> {
        match asked {
            JackInteraction::PendingInput(_) => Seq::empty(),
            JackInteraction::PendingOutput(_) => Seq::empty(),
            JackInteraction::CreateConnection(output, input) => self.input_pulls(input).push(
                AudioMessage::ConnectModules(output, input),
            ),
            JackInteraction::ClearInput(input) => self.input_pulls(input),
            JackInteraction::ClearOutput(output) => Self::pulls(output, self.pulled_from(output)),
        }
    }

    /// Whether what the jacks asked for is over and done with once it has
    /// been handled: a cable that hangs from a jack goes on hanging.
    pub open spec fn settles(asked: JackInteraction) -> bool {
        !(asked is PendingInput || asked is PendingOutput)
    }
}

impl SerializedPatch {
    /// The connections that the written connections stand for when the
    /// modules have the handles `handles`, where every index stands for
    /// something.
    pub open spec fn can_be_loaded(self, handles: Seq<ModuleHandle>) -> bool {
        &&& handles.len() == self.modules@.len()
        &&& forall|k: int|
            0 <= k < self.connections@.len() ==> read_back(handles, #[trigger] self.connections@[k]) is Some
    }
}

impl View for Patch {
    type V = PatchState;

    closed spec fn view(&self) -> PatchState {
        PatchState {
            ids: self.modules@.map_values(|m: ModuleInstance| m.id@),
            handles: self.modules@.map_values(|m: ModuleInstance| m.handle),
            connections: self.connections@,
        }
    }
}

/// Finds the index that `handle` is written down under.
fn find_index(modules: &Vec<ModuleInstance>, handle: ModuleHandle) -> (found: Option<usize>)
    ensures
        found == index_of(modules@.map_values(|m: ModuleInstance| m.handle), handle),
{
    if handle.is_audio_output() {
        return Some(AUDIO_OUTPUT_INDEX);
    }
    let ghost handles = modules@.map_values(|m: ModuleInstance| m.handle);
    let mut n: usize = modules.len();
    while n > 0
        invariant
            0 <= n <= modules@.len(),
            !handle.is_sink(),
            handles == modules@.map_values(|m: ModuleInstance| m.handle),
            last_index(handles, handles.len(), handle) == last_index(handles, n as nat, handle),
        decreases n,
    {
        if modules[n - 1].handle == handle {
            proof {
                assert(handles[n - 1] == modules@[n - 1].handle);
            }
            return Some(n - 1);
        }
        proof {
            assert(handles[n - 1] == modules@[n - 1].handle);
        }
        n -= 1;
    }
    None
}

/// Finds the handle that `index` stands for.
fn find_handle(handles: &Vec<ModuleHandle>, index: usize) -> (found: Option<ModuleHandle>)
    ensures
        found == handle_at(handles@, index),
{
    if index == AUDIO_OUTPUT_INDEX {
        Some(ModuleHandle::audio_output())
    } else if index < handles.len() {
        Some(handles[index])
    } else {
        None
    }
}

impl Patch {
    /// A patch without modules.
    pub fn new() -> (patch: Self)
        ensures
            patch@.ids.len() == 0,
            patch@.handles.len() == 0,
            patch@.connections.len() == 0,
    {
        Patch { modules: Vec::new(), connections: Vec::new() }
    }

    /// The connections of the patch.
    pub fn connections(&self) -> (connections: &Vec<Connection>)
        ensures
            connections@ == self@.connections,
    {
        &self.connections
    }

    /// The handles of the modules of the patch, in order.
    pub fn handles(&self) -> (handles: Vec<ModuleHandle>)
        ensures
            handles@ == self@.handles,
    {
        let mut handles: Vec<ModuleHandle> = Vec::new();
        let mut i: usize = 0;
        while i < self.modules.len()
            invariant
                0 <= i <= self.modules@.len(),
                handles@ == self@.handles.take(i as int),
            decreases self.modules@.len() - i,
        {
            handles.push(self.modules[i].handle);
            proof {
                assert(handles@ =~= self@.handles.take(i + 1));
            }
            i += 1;
        }
        proof {
            assert(self@.handles.take(i as int) =~= self@.handles);
        }
        handles
    }

    /// Notes a module of kind `id` that was built and given `handle`.
    pub fn add_module(&mut self, id: String, handle: ModuleHandle)
        ensures
            final(self)@ == (PatchState {
                ids: old(self)@.ids.push(id@),
                handles: old(self)@.handles.push(handle),
                connections: old(self)@.connections,
            }),
    {
        self.modules.push(ModuleInstance { id, handle });
        proof {
            assert(self@.ids =~= old(self)@.ids.push(id@));
            assert(self@.handles =~= old(self)@.handles.push(handle));
        }
    }

    /// The index of the first connection that ends at `input`.
    fn find_into(&self, input: ModuleInput) -> (found: Option<usize>)
        ensures
            match found {
                Some(k) => k < self@.connections.len() && self@.first_into(input) == Some(k as int),
                None => self@.first_into(input) is None,
            },
    {
        let mut k: usize = 0;
        while k < self.connections.len()
            invariant
                0 <= k <= self.connections@.len(),
                forall|j: int| 0 <= j < k ==> (#[trigger] self@.connections[j]).input != input,
            decreases self.connections@.len() - k,
        {
            if self.connections[k].input == input {
                proof {
                    lemma_first_index(self@.connections, |c: Connection| c.input == input);
                    assert(self@.connections[k as int].input == input);
                    let found = self@.first_into(input).unwrap();
                    if found < k {
                        assert(self@.connections[found].input != input);
                    }
                }
                return Some(k);
            }
            k += 1;
        }
        proof {
            lemma_first_index(self@.connections, |c: Connection| c.input == input);
            if let Some(found) = self@.first_into(input) {
                assert(self@.connections[found].input != input);
            }
        }
        None
    }

    /// Clears the input `input`: takes out the first connection that ends
    /// there, if there is one, and returns the output that it came from, so
    /// that the cable can be pulled.
    pub fn maybe_clear_input(&mut self, input: ModuleInput) -> (pulled: Option<ModuleOutput>)
        ensures
            final(self)@ == old(self)@.input_cleared(input),
            pulled == (match old(self)@.first_into(input) {
                Some(k) => Some(old(self)@.connections[k].output),
                None => None,
            }),
    {
        match self.find_into(input) {
            Some(k) => {
                let connection = self.connections.remove(k);
                Some(connection.output)
            },
            None => None,
        }
    }

    /// Notes a new connection from `output` to `input`. An input takes one
    /// connection at a time: the one that ended there gives way, and the
    /// output that it came from is returned, so that the cable can be pulled
    /// before the new one is plugged in.
    pub fn connect(&mut self, output: ModuleOutput, input: ModuleInput) -> (pulled: Option<ModuleOutput>)
        ensures
            final(self)@ == (PatchState {
                connections: old(self)@.input_cleared(input).connections.push(Connection { output, input }),
                ..old(self)@
            }),
            pulled == (match old(self)@.first_into(input) {
                Some(k) => Some(old(self)@.connections[k].output),
                None => None,
            }),
    {
        let pulled = self.maybe_clear_input(input);
        self.connections.push(Connection { output, input });
        pulled
    }

    /// The index of the first connection that starts at `output`.
    fn find_from(&self, output: ModuleOutput) -> (found: Option<usize>)
        ensures
            match found {
                Some(k) => k < self@.connections.len() && self@.first_from(output) == Some(k as int),
                None => self@.first_from(output) is None,
            },
    {
        let mut k: usize = 0;
        while k < self.connections.len()
            invariant
                0 <= k <= self.connections@.len(),
                forall|j: int| 0 <= j < k ==> (#[trigger] self@.connections[j]).output != output,
            decreases self.connections@.len() - k,
        {
            if self.connections[k].output == output {
                proof {
                    lemma_first_index(self@.connections, |c: Connection| c.output == output);
                    assert(self@.connections[k as int].output == output);
                    let found = self@.first_from(output).unwrap();
                    if found < k {
                        assert(self@.connections[found].output != output);
                    }
                }
                return Some(k);
            }
            k += 1;
        }
        proof {
            lemma_first_index(self@.connections, |c: Connection| c.output == output);
            if let Some(found) = self@.first_from(output) {
                assert(self@.connections[found].output != output);
            }
        }
        None
    }

    /// Clears the output `output`: takes out every connection that starts
    /// there, the first one first, and returns the inputs that they ended
    /// at, so that the cables can be pulled.
    pub fn clear_all_outputs(&mut self, output: ModuleOutput) -> (pulled: Vec<ModuleInput>)
        ensures
            final(self)@ == old(self)@.output_cleared(output),
            pulled@ == old(self)@.pulled_from(output),
    {
        let mut pulled: Vec<ModuleInput> = Vec::new();
        loop
            invariant
                self.modules == old(self).modules,
                self@.output_cleared(output) == old(self)@.output_cleared(output),
                pulled@ + self@.pulled_from(output) == old(self)@.pulled_from(output),
            ensures
                self@ == old(self)@.output_cleared(output),
                pulled@ == old(self)@.pulled_from(output),
            decreases self.connections@.len(),
        {
            match self.find_from(output) {
                Some(k) => {
                    let ghost before = self@;
                    let ghost so_far = pulled@;
                    let connection = self.connections.remove(k);
                    pulled.push(connection.input);
                    proof {
                        assert(self@ == (PatchState { connections: before.without(k as int), ..before }));
                        assert(pulled@ + self@.pulled_from(output) =~= so_far + before.pulled_from(output));
                    }
                },
                None => {
                    proof {
                        assert(pulled@ + Seq::<ModuleInput>::empty() =~= pulled@);
                    }
                    break ;
                },
            }
        }
        pulled
    }

    /// Does what the jacks asked for. Returns the requests that are to go
    /// to the rack, in order, and whether the matter is settled, so that the
    /// jacks can be asked anew.
    pub fn handle<U>(&mut self, asked: JackInteraction) -> (done: (Vec<AudioMessage<U>>, bool))
        ensures
            final(self)@ == old(self)@.handled(asked),
            done.0@ == old(self)@.requests::<U>(asked),
            done.1 == PatchState::settles(asked),
    {
        let mut requests: Vec<AudioMessage<U>> = Vec::new();
        match asked {
            JackInteraction::PendingInput(_) => (requests, false),
            JackInteraction::PendingOutput(_) => (requests, false),
            JackInteraction::CreateConnection(output, input) => {
                match self.connect(output, input) {
                    Some(pulled) => {
                        requests.push(AudioMessage::DisconnectModules(pulled, input));
                    },
                    None => {},
                }
                requests.push(AudioMessage::ConnectModules(output, input));
                proof {
                    assert(requests@ =~= old(self)@.requests::<U>(asked));
                }
                (requests, true)
            },
            JackInteraction::ClearInput(input) => {
                match self.maybe_clear_input(input) {
                    Some(pulled) => {
                        requests.push(AudioMessage::DisconnectModules(pulled, input));
                    },
                    None => {},
                }
                proof {
                    assert(requests@ =~= old(self)@.requests::<U>(asked));
                }
                (requests, true)
            },
            JackInteraction::ClearOutput(output) => {
                let pulled = self.clear_all_outputs(output);
                let mut i: usize = 0;
                while i < pulled.len()
                    invariant
                        0 <= i <= pulled@.len(),
                        requests@ == PatchState::pulls::<U>(output, pulled@.take(i as int)),
                    decreases pulled@.len() - i,
                {
                    requests.push(AudioMessage::DisconnectModules(output, pulled[i]));
                    proof {
                        assert(requests@ =~= PatchState::pulls::<U>(output, pulled@.take(i + 1)));
                    }
                    i += 1;
                }
                proof {
                    assert(pulled@.take(i as int) =~= pulled@);
                }
                (requests, true)
            },
        }
    }

    /// Writes the patch down: the kinds of the modules, and the connections
    /// with each module named by its place. A patch with a connection to or
    /// from a module that it does not have cannot be written down.
    pub fn save(&self) -> (saved: Option<SerializedPatch>)
        ensures
            saved is Some <==> self@.can_be_saved(),
            saved matches Some(s) ==> s.modules@.map_values(|id: String| id@) == self@.ids
                && s.connections@ == self@.saved_connections(),
    {
        let mut modules: Vec<String> = Vec::new();
        let mut i: usize = 0;
        while i < self.modules.len()
            invariant
                0 <= i <= self.modules@.len(),
                modules@.len() == i,
                modules@.map_values(|id: String| id@) == self@.ids.take(i as int),
            decreases self.modules@.len() - i,
        {
            let ghost before = modules@;
            modules.push(self.modules[i].id.clone());
            proof {
                let mapped = modules@.map_values(|id: String| id@);
                assert forall|j: int| 0 <= j < i + 1 implies mapped[j] == self@.ids.take(i + 1)[j] by {
                    if j < i {
                        assert(modules@[j] == before[j]);
                        assert(before.map_values(|id: String| id@)[j] == self@.ids.take(i as int)[j]);
                    }
                }
                assert(mapped =~= self@.ids.take(i + 1));
            }
            i += 1;
        }
        proof {
            assert(self@.ids.take(i as int) =~= self@.ids);
        }
        let mut connections: Vec<SerializedConnection> = Vec::new();
        let mut k: usize = 0;
        while k < self.connections.len()
            invariant
                0 <= k <= self.connections@.len(),
                connections@.len() == k,
                forall|j: int|
                    0 <= j < k ==> written_down(self@.handles, #[trigger] self@.connections[j]) == Some(
                        connections@[j],
                    ),
            decreases self.connections@.len() - k,
        {
            let c = self.connections[k];
            let src = find_index(&self.modules, c.output.module);
            let dst = find_index(&self.modules, c.input.module);
            match (src, dst) {
                (Some(src_index), Some(dst_index)) => {
                    connections.push(
                        SerializedConnection {
                            src_index,
                            src_channel: c.output.channel,
                            dst_index,
                            dst_channel: c.input.channel,
                        },
                    );
                },
                _ => {
                    proof {
                        assert(written_down(self@.handles, self@.connections[k as int]) is None);
                    }
                    return None;
                },
            }
            k += 1;
        }
        proof {
            assert(connections@ =~= self@.saved_connections());
        }
        Some(SerializedPatch { modules, connections })
    }

    /// Reads a written patch back for modules that have been built anew and
    /// given `handles`, one for each kind that the written patch lists. A
    /// written patch with an index that stands for nothing cannot be read.
    pub fn load(serialized: &SerializedPatch, handles: &Vec<ModuleHandle>) -> (loaded: Option<Patch>)
        ensures
            loaded is Some <==> serialized.can_be_loaded(handles@),
            loaded matches Some(patch) ==> {
                &&& patch@.ids == serialized.modules@.map_values(|id: String| id@)
                &&& patch@.handles == handles@
                &&& patch@.connections.len() == serialized.connections@.len()
                &&& forall|k: int|
                    0 <= k < patch@.connections.len() ==> read_back(handles@, serialized.connections@[k]) == Some(
                        #[trigger] patch@.connections[k],
                    )
            },
    {
        if handles.len() != serialized.modules.len() {
            return None;
        }
        let mut patch = Patch::new();
        let mut i: usize = 0;
        while i < handles.len()
            invariant
                0 <= i <= handles@.len(),
                handles@.len() == serialized.modules@.len(),
                patch@.ids == serialized.modules@.map_values(|id: String| id@).take(i as int),
                patch@.handles == handles@.take(i as int),
                patch@.connections.len() == 0,
            decreases handles@.len() - i,
        {
            patch.add_module(serialized.modules[i].clone(), handles[i]);
            proof {
                assert(patch@.ids =~= serialized.modules@.map_values(|id: String| id@).take(i + 1));
                assert(patch@.handles =~= handles@.take(i + 1));
            }
            i += 1;
        }
        proof {
            assert(handles@.take(i as int) =~= handles@);
            assert(serialized.modules@.map_values(|id: String| id@).take(i as int)
                =~= serialized.modules@.map_values(|id: String| id@));
        }
        let mut k: usize = 0;
        while k < serialized.connections.len()
            invariant
                0 <= k <= serialized.connections@.len(),
                handles@.len() == serialized.modules@.len(),
                patch@.ids == serialized.modules@.map_values(|id: String| id@),
                patch@.handles == handles@,
                patch@.connections.len() == k,
                forall|j: int|
                    0 <= j < k ==> read_back(handles@, serialized.connections@[j]) == Some(
                        #[trigger] patch@.connections[j],
                    ),
            decreases serialized.connections@.len() - k,
        {
            let s = serialized.connections[k];
            let src = find_handle(handles, s.src_index);
            let dst = find_handle(handles, s.dst_index);
            match (src, dst) {
                (Some(src), Some(dst)) => {
                    let ghost before = patch@.connections;
                    patch.connections.push(
                        Connection {
                            output: ModuleOutput { module: src, channel: s.src_channel },
                            input: ModuleInput { module: dst, channel: s.dst_channel },
                        },
                    );
                    proof {
                        assert forall|j: int| 0 <= j < k + 1 implies read_back(
                            handles@,
                            serialized.connections@[j],
                        ) == Some(#[trigger] patch@.connections[j]) by {
                            if j < k {
                                assert(patch@.connections[j] == before[j]);
                            }
                        }
                    }
                },
                _ => {
                    proof {
                        assert(read_back(handles@, serialized.connections@[k as int]) is None);
                    }
                    return None;
                },
            }
            k += 1;
        }
        proof {
            assert forall|j: int| 0 <= j < serialized.connections@.len() implies read_back(
                handles@,
                #[trigger] serialized.connections@[j],
            ) is Some by {
                assert(read_back(handles@, serialized.connections@[j]) == Some(patch@.connections[j]));
            }
        }
        Some(patch)
    }
}

impl PatchState {
    /// A patch that is written down and read back for modules with the same
    /// handles is the patch that it was: the same modules and the same
    /// connections, in the same order.
    pub proof fn lemma_save_then_load(self)
        requires
            self.handles.len() <= usize::MAX,
            self.can_be_saved(),
        ensures
            forall|k: int|
                0 <= k < self.connections.len() ==> read_back(self.handles, #[trigger] self.saved_connections()[k])
                    == Some(self.connections[k]),
    {
        assert forall|k: int| 0 <= k < self.connections.len() implies read_back(
            self.handles,
            #[trigger] self.saved_connections()[k],
        ) == Some(self.connections[k]) by {
            assert(written_down(self.handles, self.connections[k]) is Some);
            lemma_connection_round_trip(self.handles, self.connections[k]);
        }
    }
}

} // verus!
