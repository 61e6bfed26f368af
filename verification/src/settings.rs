//! The part of the application's settings that spoken commands are read from.
use vstd::prelude::*;

verus! {

/// One spoken command: the phrase that is said and the characters it stands for.
#[derive(Clone, Debug)]
pub struct SpokenCommand {
    pub phrase: String,
    pub replacement: String,
    pub enabled: bool,
}

/// A spoken command as a mathematical value.
pub struct CommandModel {
    pub phrase: Seq<char>,
    pub replacement: Seq<char>,
    pub enabled: bool,
}

impl View for SpokenCommand {
    type V = CommandModel;

    open spec fn view(&self) -> CommandModel {
        CommandModel {
            phrase: self.phrase@,
            replacement: self.replacement@,
            enabled: self.enabled,
        }
    }
}

/// The commands of a list, as mathematical values.
pub open spec fn models(commands: Seq<SpokenCommand>) -> Seq<CommandModel> {
    commands.map_values(|c: SpokenCommand| c@)
}

/// The settings that spoken commands depend on.
#[derive(Clone, Debug)]
pub struct AppSettings {
    /// Whether spoken commands are expanded at all.
    pub spoken_commands_enabled: bool,
    /// The commands, in the order in which they are listed.
    pub spoken_commands: Vec<SpokenCommand>,
}

/// A command's value holds the phrase, the replacement and the switch as they are.
pub proof fn law_command_value(c: SpokenCommand)
    ensures
        c@.phrase == c.phrase@,
        c@.replacement == c.replacement@,
        c@.enabled == c.enabled,
{
}

/// The values of a list of commands are those of its commands, in its order.
pub proof fn law_values_of_a_list(commands: Seq<SpokenCommand>, k: int)
    requires
        0 <= k < commands.len(),
    ensures
        models(commands).len() == commands.len(),
        models(commands)[k].phrase == commands[k].phrase@,
        models(commands)[k].replacement == commands[k].replacement@,
        models(commands)[k].enabled == commands[k].enabled,
{
}

} // verus!
