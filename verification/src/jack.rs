//! Jacks, as the control side sees them: what a click on a jack means, given
//! what was clicked before.

use vstd::prelude::*;
use crate::module::{ModuleInput, ModuleOutput};

verus! {

/// The port behind a jack.
#[derive(Copy, Clone, Debug, PartialEq, Eq, Structural)]
pub enum JackType {
    Input(ModuleInput),
    Output(ModuleOutput),
}

/// A jack on a panel.
#[derive(Copy, Clone, Debug, PartialEq, Eq, Structural)]
pub struct Jack {
    pub type_: JackType,
}

/// What the jacks have been asked for and the patch has not yet done.
#[derive(Copy, Clone, Debug, PartialEq, Eq, Structural)]
pub enum JackInteraction {
    /// A cable hangs from an input and waits for an output.
    PendingInput(ModuleInput),
    /// A cable hangs from an output and waits for an input.
    PendingOutput(ModuleOutput),
    /// A cable is to be plugged in.
    CreateConnection(ModuleOutput, ModuleInput),
    /// The cable into an input is to be pulled.
    ClearInput(ModuleInput),
    /// All cables out of an output are to be pulled.
    ClearOutput(ModuleOutput),
}

impl Jack {
    /// The jack of an input.
    pub fn input(input: ModuleInput) -> (jack: Self)
        ensures
            jack.type_ == JackType::Input(input),
    {
        Jack { type_: JackType::Input(input) }
    }

    /// The jack of an output.
    pub fn output(output: ModuleOutput) -> (jack: Self)
        ensures
            jack.type_ == JackType::Output(output),
    {
        Jack { type_: JackType::Output(output) }
    }

    /// What is asked for after a click on this jack, given what was asked
    /// for before: the first click hangs a cable from the jack, and a click
    /// on a jack of the other kind plugs the hanging cable in. A click that
    /// fits nothing leaves things as they are.
    pub open spec fn after_click(self, pending: Option<JackInteraction>) -> Option<JackInteraction> {
        match (self.type_, pending) {
            (JackType::Output(output), Some(JackInteraction::PendingInput(input))) => Some(
                JackInteraction::CreateConnection(output, input),
            ),
            (JackType::Input(input), Some(JackInteraction::PendingOutput(output))) => Some(
                JackInteraction::CreateConnection(output, input),
            ),
            (JackType::Output(output), None) => Some(JackInteraction::PendingOutput(output)),
            (JackType::Input(input), None) => Some(JackInteraction::PendingInput(input)),
            _ => pending,
        }
    }

    /// Takes a click on this jack.
    pub fn clicked(&self, pending: Option<JackInteraction>) -> (asked: Option<JackInteraction>)
        ensures
            asked == self.after_click(pending),
    {
        match self.type_ {
            JackType::Output(output) => match pending {
                Some(JackInteraction::PendingInput(input)) => Some(JackInteraction::CreateConnection(output, input)),
                None => Some(JackInteraction::PendingOutput(output)),
                _ => pending,
            },
            JackType::Input(input) => match pending {
                Some(JackInteraction::PendingOutput(output)) => Some(
                    JackInteraction::CreateConnection(output, input),
                ),
                None => Some(JackInteraction::PendingInput(input)),
                _ => pending,
            },
        }
    }

    /// Takes a request to clear this jack: everything that is plugged into
    /// it is to be pulled.
    pub fn cleared(&self) -> (asked: JackInteraction)
        ensures
            asked == (match self.type_ {
                JackType::Output(output) => JackInteraction::ClearOutput(output),
                JackType::Input(input) => JackInteraction::ClearInput(input),
            }),
    {
        match self.type_ {
            JackType::Output(output) => JackInteraction::ClearOutput(output),
            JackType::Input(input) => JackInteraction::ClearInput(input),
        }
    }
}

} // verus!
