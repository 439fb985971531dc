use modular_synth::module::{AudioUnit, Module, ModuleHandle, ModuleInput, ModuleOutput, AUDIO_OUTPUT_INDEX};
use modular_synth::rack::Rack;
use modular_synth::state::RackError;
use modular_synth::voltage::Voltage;

/// Counts its ticks on output 0, as a number, and copies input 0 to output 1.
/// An unpatched input is copied as `-1.0`.
struct Probe {
    first: f32,
    ticks: f32,
    rate: usize,
}

impl Probe {
    fn starting_at(first: f32) -> Self {
        Probe { first, ticks: 0.0, rate: 0 }
    }
}

impl AudioUnit for Probe {
    fn reset(&mut self, sample_rate: usize) {
        self.rate = sample_rate;
    }

    fn tick(&mut self, inputs: &[Option<Voltage>], outputs: &mut [Voltage]) {
        self.ticks += 1.0;
        outputs[0] = (self.first + self.ticks).to_bits();
        if outputs.len() > 1 {
            outputs[1] = match inputs[0] {
                Some(v) => v,
                None => (-1.0f32).to_bits(),
            };
        }
        if outputs.len() > 2 {
            outputs[2] = (self.rate as f32).to_bits();
        }
    }
}

struct ProbeModule {
    first: f32,
}

impl Module for ProbeModule {
    type Unit = Probe;

    fn inputs(&self) -> usize {
        1
    }

    fn outputs(&self) -> usize {
        3
    }

    fn create_audio_unit(&self) -> Probe {
        Probe::starting_at(self.first)
    }
}

fn volts(level: Option<Voltage>) -> f32 {
    f32::from_bits(level.unwrap())
}

fn two_probes() -> (Rack<Probe>, ModuleHandle, ModuleHandle) {
    let mut rack = Rack::new();
    let a = rack.add_module(&ProbeModule { first: 100.0 });
    let b = rack.add_module(&ProbeModule { first: 200.0 });
    (rack, a, b)
}

#[test]
fn a_new_rack_is_empty_and_silent() {
    let mut rack: Rack<Probe> = Rack::new();
    assert_eq!(rack.len(), 0);
    assert_eq!(rack.cable_count(), 0);
    assert_eq!(rack.audio_source(), None);
    assert_eq!(rack.sample_rate(), 0);
    assert_eq!(rack.tick(), 0.0f32.to_bits());
}

#[test]
fn audio_output_is_channel_zero_of_the_reserved_handle() {
    let port = Rack::<Probe>::audio_output();
    assert_eq!(port, ModuleInput { module: ModuleHandle(usize::MAX), channel: 0 });
    assert_eq!(AUDIO_OUTPUT_INDEX, usize::MAX);
    assert!(port.module.is_audio_output());
    assert_eq!(ModuleHandle::audio_output(), ModuleHandle(usize::MAX));
    assert!(!ModuleHandle(0).is_audio_output());
}

#[test]
fn handles_name_their_ports() {
    let h = ModuleHandle(7);
    assert_eq!(h.input(3), ModuleInput { module: h, channel: 3 });
    assert_eq!(h.output(2), ModuleOutput { module: h, channel: 2 });
}

#[test]
fn add_module_hands_out_the_count_of_units() {
    let (mut rack, a, b) = two_probes();
    assert_eq!(a, ModuleHandle(0));
    assert_eq!(b, ModuleHandle(1));
    assert_eq!(rack.len(), 2);
    let c = rack.take_module(ProbeModule { first: 0.0 });
    assert_eq!(c, ModuleHandle(2));
    assert!(rack.contains(c));
    assert!(!rack.contains(ModuleHandle(3)));
}

#[test]
fn a_new_unit_has_unpatched_inputs_and_silent_outputs() {
    let (rack, a, _) = two_probes();
    assert_eq!(rack.input_level(a.input(0)), Some(None));
    assert_eq!(rack.input_level(a.input(1)), None);
    assert_eq!(rack.output_level(a.output(0)), Some(0));
    assert_eq!(rack.output_level(a.output(2)), Some(0));
    assert_eq!(rack.output_level(a.output(3)), None);
    assert_eq!(rack.output_level(ModuleHandle(9).output(0)), None);
}

#[test]
fn connect_with_an_unknown_handle_is_refused() {
    let (mut rack, a, _) = two_probes();
    let ghost = ModuleHandle(17);
    assert_eq!(rack.connect(ghost.output(0), a.input(0)), Err(RackError::InvalidModule));
    assert_eq!(rack.connect(a.output(0), ghost.input(0)), Err(RackError::InvalidModule));
    assert_eq!(rack.connect(ghost.output(0), Rack::<Probe>::audio_output()), Err(RackError::InvalidModule));
    assert_eq!(rack.cable_count(), 0);
    assert_eq!(rack.audio_source(), None);
}

#[test]
fn connect_with_a_channel_out_of_range_is_refused() {
    let (mut rack, a, b) = two_probes();
    assert_eq!(rack.connect(a.output(3), b.input(0)), Err(RackError::InvalidChannel));
    assert_eq!(rack.connect(a.output(0), b.input(1)), Err(RackError::InvalidChannel));
    assert_eq!(rack.connect(a.output(3), Rack::<Probe>::audio_output()), Err(RackError::InvalidChannel));
    assert_eq!(rack.cable_count(), 0);
    assert_eq!(rack.audio_source(), None);
}

#[test]
fn an_unknown_handle_is_reported_before_a_bad_channel() {
    let (mut rack, a, _) = two_probes();
    assert_eq!(rack.connect(a.output(99), ModuleHandle(17).input(0)), Err(RackError::InvalidModule));
}

#[test]
fn a_refused_connect_leaves_the_cables_as_they_were() {
    let (mut rack, a, b) = two_probes();
    rack.connect(a.output(0), b.input(0)).unwrap();
    assert_eq!(rack.connect(a.output(7), b.input(0)), Err(RackError::InvalidChannel));
    assert_eq!(rack.cable_count(), 1);
    rack.tick();
    rack.tick();
    assert_eq!(volts(rack.output_level(b.output(1))), 101.0);
}

#[test]
fn a_cable_delivers_what_its_source_put_out_one_tick_before() {
    let (mut rack, a, b) = two_probes();
    rack.connect(a.output(0), b.input(0)).unwrap();
    // Tick 1: the cable delivers the silence that a held before the tick.
    rack.tick();
    assert_eq!(rack.input_level(b.input(0)), Some(Some(0)));
    assert_eq!(volts(rack.output_level(a.output(0))), 101.0);
    assert_eq!(volts(rack.output_level(b.output(1))), 0.0);
    for n in 2..50 {
        let before = rack.output_level(a.output(0)).unwrap();
        rack.tick();
        assert_eq!(rack.input_level(b.input(0)), Some(Some(before)));
        assert_eq!(volts(rack.output_level(b.output(1))), 100.0 + (n - 1) as f32);
    }
}

#[test]
fn a_unit_patched_to_itself_hears_itself_one_tick_late() {
    let mut rack = Rack::new();
    let a = rack.add_module(&ProbeModule { first: 0.0 });
    rack.connect(a.output(0), a.input(0)).unwrap();
    rack.tick();
    for n in 2..20 {
        rack.tick();
        assert_eq!(volts(rack.output_level(a.output(1))), (n - 1) as f32);
        assert_eq!(volts(rack.output_level(a.output(0))), n as f32);
    }
}

#[test]
fn a_cycle_of_three_units_delays_by_one_tick_per_cable() {
    let mut rack = Rack::new();
    let a = rack.add_module(&ProbeModule { first: 0.0 });
    let b = rack.add_module(&ProbeModule { first: 0.0 });
    let c = rack.add_module(&ProbeModule { first: 0.0 });
    rack.connect(a.output(0), b.input(0)).unwrap();
    rack.connect(b.output(1), c.input(0)).unwrap();
    rack.connect(c.output(1), a.input(0)).unwrap();
    for _ in 0..10 {
        rack.tick();
    }
    // a counts 10; b copies a one tick late; c copies b one more tick late;
    // a copies c one more tick late again.
    assert_eq!(volts(rack.output_level(a.output(0))), 10.0);
    assert_eq!(volts(rack.output_level(b.output(1))), 9.0);
    assert_eq!(volts(rack.output_level(c.output(1))), 8.0);
    assert_eq!(volts(rack.output_level(a.output(1))), 7.0);
}

#[test]
fn the_cable_plugged_in_last_wins_an_input() {
    let mut rack = Rack::new();
    let a = rack.add_module(&ProbeModule { first: 100.0 });
    let b = rack.add_module(&ProbeModule { first: 200.0 });
    let c = rack.add_module(&ProbeModule { first: 0.0 });
    rack.connect(a.output(0), c.input(0)).unwrap();
    rack.connect(b.output(0), c.input(0)).unwrap();
    rack.tick();
    rack.tick();
    assert_eq!(volts(rack.output_level(c.output(1))), 201.0);
}

#[test]
fn one_output_feeds_many_inputs() {
    let mut rack = Rack::new();
    let a = rack.add_module(&ProbeModule { first: 100.0 });
    let b = rack.add_module(&ProbeModule { first: 0.0 });
    let c = rack.add_module(&ProbeModule { first: 0.0 });
    rack.connect(a.output(0), b.input(0)).unwrap();
    rack.connect(a.output(0), c.input(0)).unwrap();
    rack.tick();
    rack.tick();
    assert_eq!(volts(rack.output_level(b.output(1))), 101.0);
    assert_eq!(volts(rack.output_level(c.output(1))), 101.0);
}

#[test]
fn disconnect_after_connect_leaves_the_input_unpatched() {
    let (mut rack, a, b) = two_probes();
    rack.connect(a.output(0), b.input(0)).unwrap();
    assert_eq!(rack.disconnect(a.output(0), b.input(0)), Ok(()));
    assert_eq!(rack.cable_count(), 0);
    assert_eq!(rack.input_level(b.input(0)), Some(None));
    rack.tick();
    assert_eq!(rack.input_level(b.input(0)), Some(None));
    // The probe copies an unpatched input as -1.
    assert_eq!(volts(rack.output_level(b.output(1))), -1.0);
}

#[test]
fn disconnect_clears_what_was_delivered() {
    let (mut rack, a, b) = two_probes();
    rack.connect(a.output(0), b.input(0)).unwrap();
    rack.tick();
    rack.tick();
    assert_eq!(volts(rack.output_level(b.output(1))), 101.0);
    rack.disconnect(a.output(0), b.input(0)).unwrap();
    assert_eq!(rack.input_level(b.input(0)), Some(None));
    rack.tick();
    assert_eq!(volts(rack.output_level(b.output(1))), -1.0);
}

#[test]
fn disconnect_without_a_cable_is_refused() {
    let (mut rack, a, b) = two_probes();
    assert_eq!(rack.disconnect(a.output(0), b.input(0)), Err(RackError::NotConnected));
    rack.connect(a.output(0), b.input(0)).unwrap();
    assert_eq!(rack.disconnect(a.output(1), b.input(0)), Err(RackError::NotConnected));
    assert_eq!(rack.disconnect(b.output(0), a.input(0)), Err(RackError::NotConnected));
    assert_eq!(rack.cable_count(), 1);
}

#[test]
fn disconnect_takes_out_exactly_one_of_two_equal_cables() {
    let (mut rack, a, b) = two_probes();
    rack.connect(a.output(0), b.input(0)).unwrap();
    rack.connect(a.output(0), b.input(0)).unwrap();
    assert_eq!(rack.cable_count(), 2);
    rack.disconnect(a.output(0), b.input(0)).unwrap();
    assert_eq!(rack.cable_count(), 1);
    rack.tick();
    rack.tick();
    assert_eq!(volts(rack.output_level(b.output(1))), 101.0);
}

#[test]
fn the_cables_that_stay_keep_their_order() {
    let mut rack = Rack::new();
    let a = rack.add_module(&ProbeModule { first: 100.0 });
    let b = rack.add_module(&ProbeModule { first: 200.0 });
    let c = rack.add_module(&ProbeModule { first: 300.0 });
    let d = rack.add_module(&ProbeModule { first: 0.0 });
    // Three cables into one input: c was plugged in last and wins, also
    // once a's cable is gone.
    rack.connect(a.output(0), d.input(0)).unwrap();
    rack.connect(b.output(0), d.input(0)).unwrap();
    rack.connect(c.output(0), d.input(0)).unwrap();
    rack.tick();
    rack.tick();
    assert_eq!(volts(rack.output_level(d.output(1))), 301.0);
    rack.disconnect(a.output(0), d.input(0)).unwrap();
    rack.tick();
    rack.tick();
    assert_eq!(volts(rack.output_level(d.output(1))), 303.0);
    // With c's cable gone too, b has the last word.
    rack.disconnect(c.output(0), d.input(0)).unwrap();
    rack.tick();
    rack.tick();
    assert_eq!(volts(rack.output_level(d.output(1))), 205.0);
}

#[test]
fn pulling_a_cable_changes_nothing_for_other_inputs() {
    let mut rack = Rack::new();
    let a = rack.add_module(&ProbeModule { first: 100.0 });
    let b = rack.add_module(&ProbeModule { first: 200.0 });
    let c = rack.add_module(&ProbeModule { first: 300.0 });
    let d = rack.add_module(&ProbeModule { first: 0.0 });
    rack.connect(a.output(0), c.input(0)).unwrap();
    rack.connect(b.output(0), d.input(0)).unwrap();
    rack.connect(c.output(0), d.input(0)).unwrap();
    rack.disconnect(a.output(0), c.input(0)).unwrap();
    rack.tick();
    rack.tick();
    assert_eq!(volts(rack.output_level(d.output(1))), 301.0);
}

#[test]
fn of_two_equal_cables_the_older_one_goes() {
    let mut rack = Rack::new();
    let a = rack.add_module(&ProbeModule { first: 100.0 });
    let b = rack.add_module(&ProbeModule { first: 200.0 });
    let d = rack.add_module(&ProbeModule { first: 0.0 });
    // a, b, a into one input: a has the last word, and still has it when
    // one of its two cables is pulled, because the older one goes.
    rack.connect(a.output(0), d.input(0)).unwrap();
    rack.connect(b.output(0), d.input(0)).unwrap();
    rack.connect(a.output(0), d.input(0)).unwrap();
    rack.disconnect(a.output(0), d.input(0)).unwrap();
    assert_eq!(rack.cable_count(), 2);
    rack.tick();
    rack.tick();
    assert_eq!(volts(rack.output_level(d.output(1))), 101.0);
}

#[test]
fn tick_returns_the_connected_output() {
    let (mut rack, a, _) = two_probes();
    rack.connect(a.output(0), Rack::<Probe>::audio_output()).unwrap();
    assert_eq!(rack.audio_source(), Some(a.output(0)));
    // The audio output hears what the unit put out on this very tick.
    assert_eq!(f32::from_bits(rack.tick()), 101.0);
    assert_eq!(f32::from_bits(rack.tick()), 102.0);
}

#[test]
fn a_new_audio_connection_replaces_the_old_one() {
    let (mut rack, a, b) = two_probes();
    rack.connect(a.output(0), Rack::<Probe>::audio_output()).unwrap();
    rack.connect(b.output(0), ModuleHandle::audio_output().input(5)).unwrap();
    assert_eq!(rack.cable_count(), 0);
    assert_eq!(rack.audio_source(), Some(b.output(0)));
    assert_eq!(f32::from_bits(rack.tick()), 201.0);
}

#[test]
fn disconnecting_the_audio_output_brings_silence() {
    let (mut rack, a, b) = two_probes();
    rack.connect(a.output(0), Rack::<Probe>::audio_output()).unwrap();
    assert_eq!(rack.disconnect(b.output(2), Rack::<Probe>::audio_output()), Ok(()));
    assert_eq!(rack.audio_source(), None);
    assert_eq!(rack.tick(), 0);
    assert_eq!(rack.disconnect(a.output(0), Rack::<Probe>::audio_output()), Ok(()));
}

#[test]
fn reset_tells_every_unit_the_rate_and_new_units_too() {
    let (mut rack, a, b) = two_probes();
    rack.reset(48000);
    assert_eq!(rack.sample_rate(), 48000);
    let c = rack.add_module(&ProbeModule { first: 0.0 });
    rack.tick();
    assert_eq!(volts(rack.output_level(a.output(2))), 48000.0);
    assert_eq!(volts(rack.output_level(b.output(2))), 48000.0);
    assert_eq!(volts(rack.output_level(c.output(2))), 48000.0);
    rack.reset(44100);
    rack.tick();
    assert_eq!(volts(rack.output_level(c.output(2))), 44100.0);
}

#[test]
fn a_unit_put_in_under_a_taken_handle_stands_in_for_the_old_one() {
    let (mut rack, a, b) = two_probes();
    rack.connect(a.output(0), b.input(0)).unwrap();
    rack.connect(a.output(2), b.input(0)).unwrap();
    rack.connect(b.output(0), a.input(0)).unwrap();
    rack.connect(a.output(2), Rack::<Probe>::audio_output()).unwrap();
    rack.tick();
    // The new unit has one output only: the cable from output 2 and the audio
    // connection go, the other two cables stay.
    rack.add_audio_unit(a, 1, 1, Probe::starting_at(500.0));
    assert_eq!(rack.len(), 2);
    assert_eq!(rack.cable_count(), 2);
    assert_eq!(rack.audio_source(), None);
    assert_eq!(rack.output_level(a.output(0)), Some(0));
    assert_eq!(rack.output_level(a.output(1)), None);
    assert_eq!(rack.input_level(a.input(0)), Some(None));
    rack.tick();
    rack.tick();
    assert_eq!(volts(rack.output_level(b.output(1))), 501.0);
    assert_eq!(rack.tick(), 0);
}

#[test]
fn a_unit_under_the_reserved_handle_can_feed_but_not_be_fed() {
    let mut rack = Rack::new();
    let sink = ModuleHandle::audio_output();
    rack.add_audio_unit(sink, 1, 2, Probe::starting_at(0.0));
    let a = rack.add_module(&ProbeModule { first: 0.0 });
    assert_eq!(a, ModuleHandle(1));
    rack.connect(sink.output(0), a.input(0)).unwrap();
    assert_eq!(rack.cable_count(), 1);
    // A cable to the reserved handle is the audio connection.
    rack.connect(a.output(0), sink.input(0)).unwrap();
    assert_eq!(rack.cable_count(), 1);
    assert_eq!(rack.audio_source(), Some(a.output(0)));
}
