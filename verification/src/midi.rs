//! MIDI as a source of pitch and gate: the notes that arrive over a MIDI
//! connection, the unit that turns them into voltages, and the names of the
//! notes.

use vstd::prelude::*;
use vstd::string::StringExecFns;
use crate::module::{write_output, written, AudioUnit, Module};
use crate::state::is_deterministic;
use crate::voltage::{is_pitch, midi_to_voltage, Voltage, CV_VOLTS, ZERO_VOLTS};
use midly::live::LiveEvent;
use midly::MidiMessage;

verus! {

/// What a MIDI message says about a key.
#[derive(Copy, Clone, Debug, PartialEq, Eq, Structural)]
pub enum NoteEvent {
    /// The key was pressed.
    NoteOn(u8),
    /// The key was let go.
    NoteOff(u8),
}

/// What the raw bytes of one MIDI message say about a key.
///
/// A message says something about a key when its status byte is that of a
/// note-on (`0x90` to `0x9f`) or of a note-off (`0x80` to `0x8f`) and two
/// data bytes follow it, data bytes being those up to `0x7f`; the key is the
/// first data byte.
pub open spec fn note_event(raw: Seq<u8>) -> Option<NoteEvent> {
    if raw.len() >= 3 && raw[1] <= 0x7f && raw[2] <= 0x7f && 0x80 <= raw[0] <= 0x9f {
        if raw[0] >= 0x90 {
            Some(NoteEvent::NoteOn(raw[1]))
        } else {
            Some(NoteEvent::NoteOff(raw[1]))
        }
    } else {
        None
    }
}

/// Parses one MIDI message with `midly::live::LiveEvent::parse` and keeps
/// what it says about a key.
///
/// The contract restates what the parser does on the way to a note-on or a
/// note-off: it takes the first byte for the status, takes for data the bytes
/// that follow up to the first one above `0x7f`, fails unless there are two
/// of them, and reads the key from the first. Any other message, and any
/// failure, comes back as `None`.
#[verifier::external_body]
fn parse_note(raw: &[u8]) -> (event: Option<NoteEvent>)
    ensures
        event == note_event(raw@),
{
    match LiveEvent::parse(raw) {
        Ok(LiveEvent::Midi { message: MidiMessage::NoteOn { key, .. }, .. }) => Some(
            NoteEvent::NoteOn(key.as_int()),
        ),
        Ok(LiveEvent::Midi { message: MidiMessage::NoteOff { key, .. }, .. }) => Some(
            NoteEvent::NoteOff(key.as_int()),
        ),
        _ => None,
    }
}

/// The MIDI input module.
#[derive(Debug, Clone, Copy, Default)]
pub struct MidiIn {}

/// The MIDI input at work: the key that was pressed last, whether it is
/// still down, and its pitch.
pub struct MidiInUnit {
    active: bool,
    key: u8,
    voltage: Voltage,
}

/// The MIDI input at work, as a value.
pub struct MidiInState {
    /// Whether the key that was pressed last is still down.
    pub active: bool,
    /// The key that was pressed last.
    pub key: u8,
    /// The pitch voltage of that key, and zero volts before the first key.
    pub voltage: Voltage,
}

impl MidiInState {
    /// The state before the first key.
    pub open spec fn idle() -> Self {
        MidiInState { active: false, key: 0, voltage: ZERO_VOLTS }
    }

    /// Whether `next` is the state after `event`: a key that is pressed
    /// becomes the key that sounds, and its gate closes when that key, and
    /// no other, is let go.
    pub open spec fn heard(self, event: NoteEvent, next: Self) -> bool {
        match event {
            NoteEvent::NoteOn(key) => next.active && next.key == key && is_pitch(next.voltage, key - 60),
            NoteEvent::NoteOff(key) => if key == self.key {
                next == (MidiInState { active: false, ..self })
            } else {
                next == self
            },
        }
    }

    /// Whether `next` is the state after the message `raw`: a message that
    /// says nothing about a key changes nothing.
    pub open spec fn received(self, raw: Seq<u8>, next: Self) -> bool {
        match note_event(raw) {
            Some(event) => self.heard(event, next),
            None => next == self,
        }
    }

    /// The level of its gate output.
    pub open spec fn gate(self) -> Voltage {
        if self.active {
            CV_VOLTS
        } else {
            ZERO_VOLTS
        }
    }
}

impl View for MidiInUnit {
    type V = MidiInState;

    closed spec fn view(&self) -> MidiInState {
        MidiInState { active: self.active, key: self.key, voltage: self.voltage }
    }
}

impl MidiInUnit {
    /// A MIDI input that has not heard of any key.
    pub fn new() -> (unit: Self)
        ensures
            unit@ == MidiInState::idle(),
    {
        MidiInUnit { active: false, key: 0, voltage: ZERO_VOLTS }
    }

    /// Takes in what a message said about a key.
    pub fn hear(&mut self, event: NoteEvent)
        ensures
            old(self)@.heard(event, final(self)@),
    {
        match event {
            NoteEvent::NoteOn(key) => {
                self.active = true;
                self.key = key;
                self.voltage = midi_to_voltage(key);
            },
            NoteEvent::NoteOff(key) => {
                if key == self.key {
                    self.active = false;
                }
            },
        }
    }

    /// Takes in one MIDI message, as raw bytes.
    pub fn receive(&mut self, raw: &[u8])
        ensures
            old(self)@.received(raw@, final(self)@),
    {
        match parse_note(raw) {
            Some(event) => self.hear(event),
            None => {},
        }
    }
}

/// A MIDI input is deterministic between messages.
pub proof fn lemma_midi_in_is_deterministic()
    ensures
        is_deterministic::<MidiInUnit>(),
{
}

impl AudioUnit for MidiInUnit {
    /// The MIDI input does not depend on the sample rate.
    open spec fn retuned(&self, sample_rate: usize, next: &Self) -> bool {
        next@ == self@
    }

    /// The MIDI input puts out the pitch of the key that was pressed last and
    /// the level of its gate; a tick changes nothing about the unit.
    open spec fn ticked(
        &self,
        inputs: Seq<Option<Voltage>>,
        outputs: Seq<Voltage>,
        next: &Self,
        emitted: Seq<Voltage>,
    ) -> bool {
        &&& next@ == self@
        &&& emitted == written(
            written(outputs, MidiIn::V_OCT_OUT as int, self@.voltage),
            MidiIn::GATE_OUT as int,
            self@.gate(),
        )
    }

    fn reset(&mut self, sample_rate: usize) {
    }

    fn tick(&mut self, inputs: &[Option<Voltage>], outputs: &mut [Voltage]) {
        write_output(outputs, MidiIn::V_OCT_OUT, self.voltage);
        write_output(outputs, MidiIn::GATE_OUT, if self.active { CV_VOLTS } else { ZERO_VOLTS });
    }
}

impl MidiIn {
    /// The output channel that carries the pitch, at one volt per octave.
    pub const V_OCT_OUT: usize = 0;

    /// The output channel that carries a gate.
    pub const GATE_OUT: usize = 1;
}

impl Module for MidiIn {
    type Unit = MidiInUnit;

    open spec fn has_inputs(&self, n: usize) -> bool {
        n == 0
    }

    open spec fn has_outputs(&self, n: usize) -> bool {
        n == 2
    }

    open spec fn creates(&self, unit: &MidiInUnit) -> bool {
        unit@ == MidiInState::idle()
    }

    fn inputs(&self) -> usize {
        0
    }

    fn outputs(&self) -> usize {
        2
    }

    fn create_audio_unit(&self) -> MidiInUnit {
        MidiInUnit::new()
    }
}

/// The name of one of the twelve pitch classes, counted from C.
pub open spec fn pitch_class_name(class: int) -> Seq<char> {
    if class == 0 {
        "C"@
    } else if class == 1 {
        "C#"@
    } else if class == 2 {
        "D"@
    } else if class == 3 {
        "D#"@
    } else if class == 4 {
        "E"@
    } else if class == 5 {
        "F"@
    } else if class == 6 {
        "F#"@
    } else if class == 7 {
        "G"@
    } else if class == 8 {
        "G#"@
    } else if class == 9 {
        "A"@
    } else if class == 10 {
        "A#"@
    } else {
        "B"@
    }
}

/// One decimal digit.
pub open spec fn digit_name(digit: int) -> Seq<char> {
    if digit == 0 {
        "0"@
    } else if digit == 1 {
        "1"@
    } else if digit == 2 {
        "2"@
    } else if digit == 3 {
        "3"@
    } else if digit == 4 {
        "4"@
    } else if digit == 5 {
        "5"@
    } else if digit == 6 {
        "6"@
    } else if digit == 7 {
        "7"@
    } else if digit == 8 {
        "8"@
    } else {
        "9"@
    }
}

/// The number of an octave, from -1 to 99, in decimal.
pub open spec fn octave_name(octave: int) -> Seq<char> {
    if octave < 0 {
        "-1"@
    } else if octave < 10 {
        digit_name(octave)
    } else {
        digit_name(octave / 10) + digit_name(octave % 10)
    }
}

/// The name of a MIDI note: its pitch class, then the number of its octave.
/// The octaves are counted from -1, so that note 60 is C4.
pub open spec fn note_name(note: u8) -> Seq<char> {
    pitch_class_name(note as int % 12) + octave_name(note as int / 12 - 1)
}

fn pitch_class(class: u8) -> (name: &'static str)
    ensures
        name@ == pitch_class_name(class as int),
{
    match class {
        0 => "C",
        1 => "C#",
        2 => "D",
        3 => "D#",
        4 => "E",
        5 => "F",
        6 => "F#",
        7 => "G",
        8 => "G#",
        9 => "A",
        10 => "A#",
        _ => "B",
    }
}

fn digit(d: u8) -> (name: &'static str)
    ensures
        name@ == digit_name(d as int),
{
    match d {
        0 => "0",
        1 => "1",
        2 => "2",
        3 => "3",
        4 => "4",
        5 => "5",
        6 => "6",
        7 => "7",
        8 => "8",
        _ => "9",
    }
}

/// The name of a MIDI note, such as `A4` for note 69.
pub fn midi_note_name(note: u8) -> (name: String)
    ensures
        name@ == note_name(note),
{
    let mut name = String::from_str(pitch_class(note % 12));
    let octave = note / 12;
    if octave == 0 {
        name.append("-1");
    } else if octave - 1 < 10 {
        name.append(digit(octave - 1));
    } else {
        name.append(digit((octave - 1) / 10));
        name.append(digit((octave - 1) % 10));
        proof {
            assert(name@ =~= pitch_class_name(note as int % 12) + (digit_name((octave - 1) / 10) + digit_name(
                (octave - 1) % 10,
            )));
        }
    }
    name
}

} // verus!
