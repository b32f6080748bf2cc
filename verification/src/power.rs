use vstd::prelude::*;
use crate::config::PowerCommands;
use crate::error::LauncherError;
use crate::exec::{is_exec_line_error, CommandLine};
use crate::text::{clone_strings, owned, views};

verus! {

broadcast use vstd::string::group_string_axioms;

/// The session actions of the launcher.
#[derive(Clone, Copy, Debug, PartialEq, Eq, Structural)]
pub enum PowerAction {
    Logout,
    Restart,
    Poweroff,
}

/// The name of an action, as the configuration and messages spell it.
pub open spec fn action_name(action: PowerAction) -> Seq<char> {
    match action {
        PowerAction::Logout => "logout"@,
        PowerAction::Restart => "restart"@,
        PowerAction::Poweroff => "poweroff"@,
    }
}

/// The configured command words of an action.
pub open spec fn action_words(action: PowerAction, commands: PowerCommands) -> Seq<Seq<char>> {
    match action {
        PowerAction::Logout => views(commands.logout@),
        PowerAction::Restart => views(commands.restart@),
        PowerAction::Poweroff => views(commands.poweroff@),
    }
}

impl PowerAction {
    /// The name of the action.
    pub fn command_name(self) -> (r: &'static str)
        ensures
            r@ == action_name(self),
    {
        match self {
            PowerAction::Logout => "logout",
            PowerAction::Restart => "restart",
            PowerAction::Poweroff => "poweroff",
        }
    }

    /// Whether the action asks to be confirmed: every one does.
    pub fn needs_confirmation(self) -> (r: bool)
        ensures
            r,
    {
        true
    }
}

/// The command of an action: its first configured word is the program, the
/// rest are the arguments; `None` when the action has no words.
pub fn command_for_action(action: PowerAction, commands: &PowerCommands) -> (r: Option<
    CommandLine,
>)
    ensures
        match r {
            None => action_words(action, *commands).len() == 0,
            Some(c) => {
                let words = action_words(action, *commands);
                &&& words.len() > 0
                &&& c.program@ == words[0]
                &&& views(c.args@) == words.drop_first()
            },
        },
{
    let values = match action {
        PowerAction::Logout => &commands.logout,
        PowerAction::Restart => &commands.restart,
        PowerAction::Poweroff => &commands.poweroff,
    };
    if values.len() == 0 {
        return None;
    }
    let program = values[0].clone();
    let (_, rest) = values.as_slice().split_at(1);
    let args = clone_strings(rest);
    assert(views(rest@) =~= views(values@).drop_first());
    Some(CommandLine { program, args })
}

/// The command of an action, or the error for an action without words.
pub fn power_command(action: PowerAction, commands: &PowerCommands) -> (r: Result<
    CommandLine,
    LauncherError,
>)
    ensures
        match r {
            Ok(c) => {
                let words = action_words(action, *commands);
                &&& words.len() > 0
                &&& c.program@ == words[0]
                &&& views(c.args@) == words.drop_first()
            },
            Err(e) => action_words(action, *commands).len() == 0 && is_exec_line_error(
                e,
                action_name(action),
                "power command is empty"@,
            ),
        },
{
    match command_for_action(action, commands) {
        Some(c) => Ok(c),
        None => Err(
            LauncherError::ExecLine {
                exec_line: owned(action.command_name()),
                reason: owned("power command is empty"),
            },
        ),
    }
}

} // verus!
