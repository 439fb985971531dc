use modular_synth::voltage::{
    at_least, below, midi_to_voltage, AUDIO_VOLTS, CV_VOLTS, GATE_RESET_VOLTS, GATE_THRESHOLD_VOLTS,
    V_OCT_F0, ZERO_VOLTS,
};

fn samples() -> Vec<f32> {
    vec![
        0.0,
        -0.0,
        1.0,
        -1.0,
        0.1,
        0.099999994,
        0.10000001,
        2.0,
        1.9999999,
        2.0000002,
        -2.0,
        5.0,
        10.0,
        -10.0,
        1.0e-45,
        -1.0e-45,
        1.1754942e-38,
        1.17549435e-38,
        3.4028235e38,
        -3.4028235e38,
        f32::INFINITY,
        f32::NEG_INFINITY,
        f32::NAN,
        -f32::NAN,
        f32::from_bits(0x7f80_0001),
        f32::from_bits(0xffc0_0000),
        261.6256,
        0.75,
        1.0 / 12.0,
    ]
}

#[test]
fn constants_are_the_patterns_of_their_levels() {
    assert_eq!(ZERO_VOLTS, 0.0f32.to_bits());
    assert_eq!(AUDIO_VOLTS, 5.0f32.to_bits());
    assert_eq!(CV_VOLTS, 10.0f32.to_bits());
    assert_eq!(GATE_THRESHOLD_VOLTS, 2.0f32.to_bits());
    assert_eq!(GATE_RESET_VOLTS, 0.1f32.to_bits());
    assert_eq!(V_OCT_F0, 261.6256f32.to_bits());
}

#[test]
fn at_least_agrees_with_the_comparison_of_the_numbers() {
    for a in samples() {
        for b in samples() {
            assert_eq!(at_least(a.to_bits(), b.to_bits()), a >= b, "{} >= {}", a, b);
        }
    }
}

#[test]
fn below_agrees_with_the_comparison_of_the_numbers() {
    for a in samples() {
        for b in samples() {
            assert_eq!(below(a.to_bits(), b.to_bits()), a < b, "{} < {}", a, b);
        }
    }
}

#[test]
fn comparisons_agree_on_a_sweep_of_patterns() {
    let mut a: u32 = 0;
    loop {
        let mut b: u32 = 0x1234;
        loop {
            let x = f32::from_bits(a);
            let y = f32::from_bits(b);
            assert_eq!(at_least(a, b), x >= y);
            assert_eq!(below(a, b), x < y);
            match b.checked_add(0x0123_4567) {
                Some(next) => b = next,
                None => break,
            }
        }
        match a.checked_add(0x00fe_dcba) {
            Some(next) => a = next,
            None => break,
        }
    }
}

#[test]
fn not_a_number_is_neither_at_least_nor_below() {
    let nan = f32::NAN.to_bits();
    assert!(!at_least(nan, ZERO_VOLTS));
    assert!(!below(nan, ZERO_VOLTS));
    assert!(!at_least(ZERO_VOLTS, nan));
    assert!(!below(ZERO_VOLTS, nan));
    assert!(!at_least(nan, nan));
}

#[test]
fn the_two_zeros_are_at_the_same_level() {
    let minus = (-0.0f32).to_bits();
    assert!(at_least(minus, ZERO_VOLTS));
    assert!(at_least(ZERO_VOLTS, minus));
    assert!(!below(minus, ZERO_VOLTS));
}

#[test]
fn midi_to_voltage_is_the_nearest_number_for_every_note() {
    for note in 0..=255u8 {
        let expected = (note as f32 - 60.0) / 12.0;
        assert_eq!(midi_to_voltage(note), expected.to_bits(), "note {}", note);
    }
}

#[test]
fn midi_to_voltage_of_named_notes() {
    assert_eq!(midi_to_voltage(60), 0.0f32.to_bits());
    assert_eq!(midi_to_voltage(72), 1.0f32.to_bits());
    assert_eq!(midi_to_voltage(48), (-1.0f32).to_bits());
    assert_eq!(midi_to_voltage(69), 0.75f32.to_bits());
    assert_eq!(midi_to_voltage(0), (-5.0f32).to_bits());
    assert_eq!(midi_to_voltage(61), 0x3daa_aaab);
}
