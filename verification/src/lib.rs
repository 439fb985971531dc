//! The engine of a modular synthesizer: units of signal processing, patched
//! together with cables into an arbitrary graph that is advanced one sample at
//! a time.
//!
//! - [`voltage`]: signal levels, their comparison, and the pitch of a note.
//! - [`module`]: handles and ports, and the interfaces of units and modules.
//! - [`state`]: the model of a rack and what holds of it.
//! - [`rack`]: the rack itself.
//! - [`mirror`]: racks that differ only in the handles of their units.
//! - [`host`]: what the audio callback does with a rack.
//! - [`utils`], [`clock`], [`sequencer`], [`envelope`], [`midi`]: the parts
//!   of the modules that count, step and decide.
//! - [`units`]: the units of this library as one kind of unit.
//! - [`chain`]: a clock that drives a sequencer.
//! - [`registry`], [`patch`], [`jack`]: the control side.

pub mod chain;
pub mod clock;
pub mod envelope;
pub mod host;
pub mod jack;
pub mod midi;
pub mod mirror;
pub mod module;
pub mod patch;
pub mod rack;
pub mod registry;
pub mod sequencer;
pub mod state;
pub mod units;
pub mod utils;
pub mod voltage;
