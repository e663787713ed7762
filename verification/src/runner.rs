//! The switch commands that a runner sends to its power supply, in order.

use vstd::prelude::*;

use crate::types::OnOffValue;

verus! {

/// A command of the power supply that carries no measured value.
#[derive(Debug, Clone, Copy, PartialEq, Eq, Structural)]
pub enum RunnerCommand {
    /// Enable/Disable Power
    Power(OnOffValue),
    /// Enable/Disable over voltage protection
    Ovp(OnOffValue),
    /// Enable/Disable over current protection
    Ocp(OnOffValue),
    /// Store current settings to this memory slot
    Save(u32),
}

/// The memory slot in which the settings are saved after every change.
pub const SETTINGS_SLOT: u32 = 1;

/// The commands sent right after connecting: both hardware protections on.
pub fn protection_commands() -> (cmds: Vec<RunnerCommand>)
    ensures
        cmds@ == seq![RunnerCommand::Ovp(OnOffValue::On), RunnerCommand::Ocp(OnOffValue::On)],
{
    let mut cmds: Vec<RunnerCommand> = Vec::new();
    cmds.push(RunnerCommand::Ovp(OnOffValue::On));
    cmds.push(RunnerCommand::Ocp(OnOffValue::On));
    cmds
}

/// The commands that set the output state: turning off also saves the
/// settings.
pub fn output_commands(state: OnOffValue) -> (cmds: Vec<RunnerCommand>)
    ensures
        cmds@ == (match state {
            OnOffValue::On => seq![RunnerCommand::Power(OnOffValue::On)],
            OnOffValue::Off => seq![
                RunnerCommand::Power(OnOffValue::Off),
                RunnerCommand::Save(SETTINGS_SLOT),
            ],
        }),
{
    let mut cmds: Vec<RunnerCommand> = Vec::new();
    match state {
        OnOffValue::On => {
            cmds.push(RunnerCommand::Power(OnOffValue::On));
        },
        OnOffValue::Off => {
            cmds.push(RunnerCommand::Power(OnOffValue::Off));
            cmds.push(RunnerCommand::Save(SETTINGS_SLOT));
        },
    }
    cmds
}

} // verus!
