use modular_synth::clock::{Clock, ClockUnit};
use modular_synth::host::AudioMessage;
use modular_synth::module::{AudioUnit, Module, ModuleHandle};
use modular_synth::patch::{Connection, Patch, SerializedConnection, SerializedPatch};
use modular_synth::rack::Rack;
use modular_synth::registry::{ModuleRegistry, RegistryError};
use modular_synth::sequencer::{Sequencer, SequencerUnit};
use modular_synth::state::RackError;
use modular_synth::units::Unit as LibraryUnit;
use modular_synth::voltage::{midi_to_voltage, Voltage, AUDIO_VOLTS, CV_VOLTS, V_OCT_F0, ZERO_VOLTS};

/// An oscillator in floating point, with the sawtooth on output 0.
struct Vco {
    phase: f32,
    phase_delta: f32,
}

fn poly_blep(t: f32, dt: f32) -> f32 {
    if t < dt {
        let t = t / dt;
        -t * t + 2.0 * t - 1.0
    } else if t > 1.0 - dt {
        let t = (t - 1.0) / dt;
        t * t + 2.0 * t + 1.0
    } else {
        0.0
    }
}

impl Vco {
    fn tick(&mut self, inputs: &[Option<Voltage>], outputs: &mut [Voltage]) {
        let v_oct = f32::from_bits(inputs[0].unwrap_or(ZERO_VOLTS));
        let dt = self.phase_delta * 2f32.powf(v_oct);
        self.phase = (self.phase + dt) % 1.0;
        let saw = f32::from_bits(AUDIO_VOLTS) * (2.0 * self.phase - 1.0 - poly_blep(self.phase, dt));
        outputs[0] = saw.to_bits();
    }
}

/// The kinds of unit of these scenarios.
enum Unit {
    Clock(ClockUnit),
    Sequencer(SequencerUnit),
    Vco(Vco),
}

impl AudioUnit for Unit {
    fn reset(&mut self, sample_rate: usize) {
        match self {
            Unit::Clock(u) => u.reset(sample_rate),
            Unit::Sequencer(u) => u.reset(sample_rate),
            Unit::Vco(u) => u.phase_delta = f32::from_bits(V_OCT_F0) / sample_rate as f32,
        }
    }

    fn tick(&mut self, inputs: &[Option<Voltage>], outputs: &mut [Voltage]) {
        match self {
            Unit::Clock(u) => u.tick(inputs, outputs),
            Unit::Sequencer(u) => u.tick(inputs, outputs),
            Unit::Vco(u) => u.tick(inputs, outputs),
        }
    }
}

/// A module of one of the kinds.
#[derive(Clone, Copy)]
enum Kind {
    Clock(usize),
    Sequencer([u8; 8]),
    Vco,
}

impl Module for Kind {
    type Unit = Unit;

    fn inputs(&self) -> usize {
        match self {
            Kind::Clock(_) => 0,
            Kind::Sequencer(_) => 1,
            Kind::Vco => 1,
        }
    }

    fn outputs(&self) -> usize {
        match self {
            Kind::Clock(_) => 1,
            Kind::Sequencer(_) => 1,
            Kind::Vco => 1,
        }
    }

    fn create_audio_unit(&self) -> Unit {
        match self {
            Kind::Clock(period) => Unit::Clock(Clock::new(*period).create_audio_unit()),
            Kind::Sequencer(notes) => Unit::Sequencer(Sequencer::with_sequence(*notes).create_audio_unit()),
            Kind::Vco => Unit::Vco(Vco { phase: 0.0, phase_delta: 0.0 }),
        }
    }
}

const NOTES: [u8; 8] = [61, 65, 68, 77, 61, 65, 68, 75];

struct Chain {
    rack: Rack<Unit>,
    clock: ModuleHandle,
    sequencer: ModuleHandle,
    vco: ModuleHandle,
}

fn chain(period: usize) -> Chain {
    let mut rack = Rack::new();
    rack.reset(44100);
    let clock = rack.add_module(&Kind::Clock(period));
    let sequencer = rack.add_module(&Kind::Sequencer(NOTES));
    let vco = rack.add_module(&Kind::Vco);
    rack.connect(clock.output(Clock::TRIGGER_OUT), sequencer.input(Sequencer::TRIGGER_IN)).unwrap();
    rack.connect(sequencer.output(Sequencer::V_OCT_OUT), vco.input(0)).unwrap();
    rack.connect(vco.output(0), Rack::<Unit>::audio_output()).unwrap();
    Chain { rack, clock, sequencer, vco }
}

#[test]
fn the_sequencer_has_stepped_once_after_one_period_of_the_clock() {
    for period in [8usize, 16, 100] {
        let mut c = chain(period);
        let waiting = midi_to_voltage(NOTES[7]);
        let first = midi_to_voltage(NOTES[0]);
        let second = midi_to_voltage(NOTES[1]);
        let mut steps = 0;
        let mut last = waiting;
        for tick in 1..=period {
            c.rack.tick();
            let pitch = c.rack.output_level(c.sequencer.output(0)).unwrap();
            if pitch != last {
                steps += 1;
                last = pitch;
                // The clock goes high on tick 1, the cable delivers on tick 2.
                assert_eq!(tick, 2);
            }
        }
        assert_eq!(steps, 1);
        assert_eq!(last, first);
        // The pulse that starts the second period is put out on tick
        // `period`, and steps the sequencer one tick later.
        assert_eq!(c.rack.output_level(c.clock.output(0)), Some(CV_VOLTS));
        c.rack.tick();
        assert_eq!(c.rack.output_level(c.sequencer.output(0)), Some(second));
    }
}

#[test]
fn every_cable_of_the_chain_is_one_tick_late() {
    let mut c = chain(8);
    for _ in 0..40 {
        let clock_out = c.rack.output_level(c.clock.output(0)).unwrap();
        let sequencer_out = c.rack.output_level(c.sequencer.output(0)).unwrap();
        c.rack.tick();
        assert_eq!(c.rack.input_level(c.sequencer.input(0)), Some(Some(clock_out)));
        assert_eq!(c.rack.input_level(c.vco.input(0)), Some(Some(sequencer_out)));
    }
}

#[test]
fn the_new_pitch_reaches_the_oscillator_two_ticks_after_the_pulse() {
    let mut c = chain(8);
    let first = midi_to_voltage(NOTES[0]);
    // Tick 1: the clock puts out its pulse. Tick 2: the sequencer reads it
    // and steps. Tick 3: the oscillator reads the new pitch.
    c.rack.tick();
    assert_eq!(c.rack.output_level(c.clock.output(0)), Some(CV_VOLTS));
    assert_eq!(c.rack.input_level(c.vco.input(0)), Some(Some(ZERO_VOLTS)));
    c.rack.tick();
    assert_eq!(c.rack.output_level(c.sequencer.output(0)), Some(first));
    assert_ne!(c.rack.input_level(c.vco.input(0)), Some(Some(first)));
    c.rack.tick();
    assert_eq!(c.rack.input_level(c.vco.input(0)), Some(Some(first)));
}

#[test]
fn the_oscillator_runs_free_and_is_heard_from_the_first_tick() {
    let mut c = chain(8);
    let sample = f32::from_bits(c.rack.tick());
    let dt = 261.6256f32 / 44100.0;
    assert_eq!(sample, 5.0 * (2.0 * dt - 1.0));
    assert_eq!(Some(sample.to_bits()), c.rack.output_level(c.vco.output(0)));
}

#[test]
fn the_sawtooth_at_zero_pitch_has_the_period_of_middle_c() {
    let mut rack = Rack::new();
    rack.reset(44100);
    let vco = rack.add_module(&Kind::Vco);
    rack.connect(vco.output(0), Rack::<Unit>::audio_output()).unwrap();
    let samples: Vec<f32> = (0..2000).map(|_| f32::from_bits(rack.tick())).collect();
    let mut wraps = Vec::new();
    for n in 1..samples.len() {
        if samples[n] < samples[n - 1] - 5.0 {
            wraps.push(n);
        }
    }
    assert!(wraps.len() > 5);
    let expected = 44100.0 / 261.6256;
    for pair in wraps.windows(2) {
        let spacing = (pair[1] - pair[0]) as f32;
        assert!((spacing - expected).abs() <= 1.0, "{} samples", spacing);
    }
}

fn render(rack: &mut Rack<Unit>, frames: usize) -> Vec<Voltage> {
    let mut samples = vec![ZERO_VOLTS; frames];
    rack.render(&mut samples);
    samples
}

#[test]
fn render_is_one_tick_per_sample() {
    let mut one = chain(16).rack;
    let mut other = chain(16).rack;
    let block = render(&mut one, 64);
    let single: Vec<Voltage> = (0..64).map(|_| other.tick()).collect();
    assert_eq!(block, single);
    let mut none: Vec<Voltage> = Vec::new();
    one.render(&mut none);
    assert_eq!(render(&mut one, 3), (0..3).map(|_| other.tick()).collect::<Vec<Voltage>>());
}

#[test]
fn apply_carries_out_requests_in_order() {
    let mut rack: Rack<Unit> = Rack::new();
    rack.reset(44100);
    let a = ModuleHandle(40);
    let b = ModuleHandle(41);
    assert_eq!(rack.apply(AudioMessage::ConnectModules(a.output(0), b.input(0))), Err(RackError::InvalidModule));
    assert_eq!(rack.apply(AudioMessage::AddModule(a, 0, 1, Kind::Clock(8).create_audio_unit())), Ok(()));
    assert_eq!(rack.apply(AudioMessage::AddModule(b, 1, 1, Kind::Sequencer(NOTES).create_audio_unit())), Ok(()));
    assert_eq!(rack.len(), 2);
    assert_eq!(rack.apply(AudioMessage::ConnectModules(a.output(0), b.input(1))), Err(RackError::InvalidChannel));
    assert_eq!(rack.apply(AudioMessage::ConnectModules(a.output(0), b.input(0))), Ok(()));
    assert_eq!(rack.cable_count(), 1);
    assert_eq!(
        rack.apply(AudioMessage::DisconnectModules(b.output(0), a.input(0))),
        Err(RackError::NotConnected)
    );
    assert_eq!(rack.apply(AudioMessage::DisconnectModules(a.output(0), b.input(0))), Ok(()));
    assert_eq!(rack.cable_count(), 0);
    assert_eq!(rack.apply(AudioMessage::ConnectModules(b.output(0), Rack::<Unit>::audio_output())), Ok(()));
    assert_eq!(rack.tick(), midi_to_voltage(NOTES[7]));
}

fn kinds() -> ModuleRegistry<fn() -> Kind> {
    fn clock() -> Kind {
        Kind::Clock(16)
    }
    fn sequencer() -> Kind {
        Kind::Sequencer(NOTES)
    }
    fn vco() -> Kind {
        Kind::Vco
    }
    let mut registry: ModuleRegistry<fn() -> Kind> = ModuleRegistry::new();
    registry.register("builtins::Clock", "Clock", clock);
    registry.register("builtins::Sequencer", "Sequencer", sequencer);
    registry.register("builtins::Vco", "VCO", vco);
    registry
}

#[test]
fn registry_lists_what_was_registered() {
    let registry = kinds();
    let all = registry.all_modules();
    let ids: Vec<&str> = all.iter().map(|m| m.id.as_str()).collect();
    let names: Vec<&str> = all.iter().map(|m| m.name.as_str()).collect();
    assert_eq!(ids, vec!["builtins::Clock", "builtins::Sequencer", "builtins::Vco"]);
    assert_eq!(names, vec!["Clock", "Sequencer", "VCO"]);
    assert!(registry.is_registered("builtins::Vco"));
    assert!(!registry.is_registered("builtins::Vcf"));
    assert_eq!(registry.issued(), 0);
}

#[test]
fn registry_replaces_a_kind_registered_twice() {
    fn slow() -> Kind {
        Kind::Clock(1000)
    }
    let mut registry = kinds();
    registry.register("builtins::Clock", "Slow clock", slow);
    let all = registry.all_modules();
    assert_eq!(all.len(), 3);
    assert_eq!(all[0].id, "builtins::Clock");
    assert_eq!(all[0].name, "Slow clock");
    let (_, module) = registry.create_module("builtins::Clock").unwrap();
    assert!(matches!(module, Kind::Clock(1000)));
}

#[test]
fn registry_builds_by_name_and_counts_handles_up() {
    let mut registry = kinds();
    let (first, module) = registry.create_module("builtins::Sequencer").unwrap();
    assert_eq!(first, ModuleHandle(0));
    assert!(matches!(module, Kind::Sequencer(_)));
    let (second, module) = registry.create_module("builtins::Vco").unwrap();
    assert_eq!(second, ModuleHandle(1));
    assert!(matches!(module, Kind::Vco));
    assert_eq!(registry.issued(), 2);
}

#[test]
fn registry_refuses_an_unknown_name() {
    let mut registry = kinds();
    match registry.create_module("builtins::Theremin") {
        Err(RegistryError::NotRegistered(id)) => assert_eq!(id, "builtins::Theremin"),
        Ok(_) => panic!("built a module of an unknown kind"),
    }
    match registry.create_module("builtins::Theremin") {
        Err(e) => assert_eq!(e.id(), "builtins::Theremin"),
        Ok(_) => panic!("built a module of an unknown kind"),
    }
    assert_eq!(registry.issued(), 0);
}

fn connection(src: ModuleHandle, src_channel: usize, dst: ModuleHandle, dst_channel: usize) -> Connection {
    Connection { output: src.output(src_channel), input: dst.input(dst_channel) }
}

#[test]
fn patch_connect_lets_one_connection_into_an_input() {
    let (a, b, c) = (ModuleHandle(0), ModuleHandle(1), ModuleHandle(2));
    let mut patch = Patch::new();
    assert_eq!(patch.connect(a.output(0), c.input(0)), None);
    assert_eq!(patch.connect(b.output(0), c.input(1)), None);
    assert_eq!(patch.connect(b.output(1), c.input(0)), Some(a.output(0)));
    assert_eq!(patch.connections(), &vec![connection(b, 0, c, 1), connection(b, 1, c, 0)]);
}

#[test]
fn patch_clears_inputs_and_outputs() {
    let (a, b, c) = (ModuleHandle(0), ModuleHandle(1), ModuleHandle(2));
    let mut patch = Patch::new();
    patch.connect(a.output(0), b.input(0));
    patch.connect(a.output(0), c.input(0));
    patch.connect(b.output(0), c.input(1));
    patch.connect(a.output(0), c.input(2));
    assert_eq!(patch.maybe_clear_input(a.input(0)), None);
    assert_eq!(patch.connections().len(), 4);
    assert_eq!(patch.maybe_clear_input(c.input(0)), Some(a.output(0)));
    // The connections that stay keep their order.
    assert_eq!(
        patch.connections(),
        &vec![connection(a, 0, b, 0), connection(b, 0, c, 1), connection(a, 0, c, 2)]
    );
    assert_eq!(patch.clear_all_outputs(a.output(0)), vec![b.input(0), c.input(2)]);
    assert_eq!(patch.connections(), &vec![connection(b, 0, c, 1)]);
    assert_eq!(patch.clear_all_outputs(a.output(0)), vec![]);
}

fn saved(patch: &Patch) -> SerializedPatch {
    patch.save().unwrap()
}

#[test]
fn patch_is_written_down_by_place() {
    let mut patch = Patch::new();
    patch.add_module("builtins::Clock".to_string(), ModuleHandle(10));
    patch.add_module("builtins::Sequencer".to_string(), ModuleHandle(30));
    patch.add_module("builtins::Vco".to_string(), ModuleHandle(20));
    patch.connect(ModuleHandle(10).output(0), ModuleHandle(30).input(0));
    patch.connect(ModuleHandle(30).output(0), ModuleHandle(20).input(0));
    patch.connect(ModuleHandle(20).output(2), Rack::<Unit>::audio_output());
    assert_eq!(patch.handles(), vec![ModuleHandle(10), ModuleHandle(30), ModuleHandle(20)]);
    let s = saved(&patch);
    assert_eq!(s.modules, vec!["builtins::Clock", "builtins::Sequencer", "builtins::Vco"]);
    assert_eq!(
        s.connections,
        vec![
            SerializedConnection { src_index: 0, src_channel: 0, dst_index: 1, dst_channel: 0 },
            SerializedConnection { src_index: 1, src_channel: 0, dst_index: 2, dst_channel: 0 },
            SerializedConnection { src_index: 2, src_channel: 2, dst_index: usize::MAX, dst_channel: 0 },
        ]
    );
}

#[test]
fn patch_with_a_stray_connection_cannot_be_written_down() {
    let mut patch = Patch::new();
    patch.add_module("builtins::Clock".to_string(), ModuleHandle(0));
    patch.connect(ModuleHandle(0).output(0), ModuleHandle(5).input(0));
    assert!(patch.save().is_none());
}

#[test]
fn patch_is_read_back_for_new_handles() {
    let s = SerializedPatch {
        modules: vec!["builtins::Clock".to_string(), "builtins::Vco".to_string()],
        connections: vec![
            SerializedConnection { src_index: 0, src_channel: 0, dst_index: 1, dst_channel: 0 },
            SerializedConnection { src_index: 1, src_channel: 1, dst_index: usize::MAX, dst_channel: 0 },
        ],
    };
    let handles = vec![ModuleHandle(7), ModuleHandle(9)];
    let patch = Patch::load(&s, &handles).unwrap();
    assert_eq!(patch.handles(), handles);
    assert_eq!(
        patch.connections(),
        &vec![
            connection(ModuleHandle(7), 0, ModuleHandle(9), 0),
            connection(ModuleHandle(9), 1, ModuleHandle::audio_output(), 0),
        ]
    );
    assert!(Patch::load(&s, &vec![ModuleHandle(7)]).is_none());
    let broken = SerializedPatch {
        modules: vec!["builtins::Clock".to_string()],
        connections: vec![SerializedConnection { src_index: 0, src_channel: 0, dst_index: 1, dst_channel: 0 }],
    };
    assert!(Patch::load(&broken, &vec![ModuleHandle(0)]).is_none());
}

/// Builds the modules of a patch by name, puts them into a rack and plugs
/// the cables in.
fn build(patch: &Patch, ids: &[String], registry: &mut ModuleRegistry<fn() -> Kind>) -> Rack<Unit> {
    let mut rack = Rack::new();
    rack.reset(44100);
    for (id, handle) in ids.iter().zip(patch.handles()) {
        let (_, module) = registry.create_module(id).unwrap();
        rack.add_audio_unit(handle, module.inputs(), module.outputs(), module.create_audio_unit());
    }
    for c in patch.connections() {
        rack.connect(c.output, c.input).unwrap();
    }
    rack
}

#[test]
fn a_patch_written_down_and_read_back_sounds_the_same() {
    let ids: Vec<String> = ["builtins::Clock", "builtins::Sequencer", "builtins::Vco", "builtins::Vco"]
        .iter()
        .map(|id| id.to_string())
        .collect();
    let mut registry = kinds();
    let mut patch = Patch::new();
    let mut handles = Vec::new();
    for id in &ids {
        let (handle, _) = registry.create_module(id).unwrap();
        patch.add_module(id.clone(), handle);
        handles.push(handle);
    }
    patch.connect(handles[0].output(0), handles[1].input(0));
    patch.connect(handles[1].output(0), handles[2].input(0));
    patch.connect(handles[2].output(0), handles[3].input(0));
    patch.connect(handles[3].output(0), Rack::<Unit>::audio_output());
    let mut first = build(&patch, &ids, &mut registry);

    let written = saved(&patch);
    // Read back for the same handles, the patch is the patch.
    let same = Patch::load(&written, &handles).unwrap();
    assert_eq!(same.connections(), patch.connections());
    // Read back for modules that are built anew, it sounds the same.
    let mut new_handles = Vec::new();
    for id in &written.modules {
        let (handle, _) = registry.create_module(id).unwrap();
        new_handles.push(handle);
    }
    assert_eq!(new_handles[0], ModuleHandle(8));
    let loaded = Patch::load(&written, &new_handles).unwrap();
    let mut rebuilt = build(&loaded, &written.modules, &mut registry);
    let one = render(&mut first, 500);
    let other = render(&mut rebuilt, 500);
    assert_eq!(one, other);
    assert!(one.iter().any(|s| *s != ZERO_VOLTS));
}

#[test]
fn errors_say_what_went_wrong() {
    assert_eq!(RackError::InvalidModule.message(), "the referenced module does not exist");
    assert_eq!(RackError::InvalidChannel.message(), "the referenced module channel does not exist");
    assert_eq!(RackError::NotConnected.message(), "the referenced modules are not connected");
    let e = RegistryError::NotRegistered("builtins::Theremin".to_string());
    assert_eq!(e.message(), "no module with id 'builtins::Theremin' exists");
}

/// The oscillator as a unit of its own.
struct Oscillator(Vco);

impl AudioUnit for Oscillator {
    fn reset(&mut self, sample_rate: usize) {
        self.0.phase_delta = f32::from_bits(V_OCT_F0) / sample_rate as f32;
    }

    fn tick(&mut self, inputs: &[Option<Voltage>], outputs: &mut [Voltage]) {
        self.0.tick(inputs, outputs)
    }
}

#[test]
fn the_units_of_the_library_share_a_rack_with_others() {
    for period in [4usize, 5, 8, 33] {
        let mut rack: Rack<LibraryUnit<Oscillator>> = Rack::new();
        rack.reset(44100);
        let (clock, sequencer, vco) = (ModuleHandle(0), ModuleHandle(1), ModuleHandle(2));
        rack.add_audio_unit(clock, 0, 1, LibraryUnit::Clock(Clock::new(period).create_audio_unit()));
        rack.add_audio_unit(
            sequencer,
            1,
            1,
            LibraryUnit::Sequencer(Sequencer::with_sequence(NOTES).create_audio_unit()),
        );
        rack.add_audio_unit(vco, 1, 1, LibraryUnit::Other(Oscillator(Vco { phase: 0.0, phase_delta: 0.0 })));
        rack.connect(clock.output(0), sequencer.input(0)).unwrap();
        rack.connect(sequencer.output(0), vco.input(0)).unwrap();
        rack.connect(vco.output(0), Rack::<LibraryUnit<Oscillator>>::audio_output()).unwrap();
        let waiting = midi_to_voltage(NOTES[7]);
        let first = midi_to_voltage(NOTES[0]);
        for tick in 1..=period {
            rack.tick();
            let expected = if tick >= 2 { first } else { waiting };
            assert_eq!(rack.output_level(sequencer.output(0)), Some(expected), "tick {}", tick);
        }
        // One tick into the second period, the sequencer steps again.
        rack.tick();
        assert_eq!(rack.output_level(sequencer.output(0)), Some(midi_to_voltage(NOTES[1])));
    }
}

#[test]
fn a_clock_with_the_shortest_pulse_steps_the_sequencer_a_period_later() {
    let mut rack: Rack<LibraryUnit<Oscillator>> = Rack::new();
    let (clock, sequencer) = (ModuleHandle(0), ModuleHandle(1));
    rack.add_audio_unit(clock, 0, 1, LibraryUnit::Clock(ClockUnit::new(6, 1)));
    rack.add_audio_unit(sequencer, 1, 1, LibraryUnit::Sequencer(SequencerUnit::new(NOTES)));
    rack.connect(clock.output(0), sequencer.input(0)).unwrap();
    // The only high sample of a period is its last; it reaches the sequencer
    // one tick later.
    for _ in 0..6 {
        rack.tick();
        assert_eq!(rack.output_level(sequencer.output(0)), Some(midi_to_voltage(NOTES[7])));
    }
    rack.tick();
    assert_eq!(rack.output_level(sequencer.output(0)), Some(midi_to_voltage(NOTES[0])));
}
