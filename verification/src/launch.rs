use vstd::prelude::*;
use crate::config::{privileged, Config};
use crate::desktop::DesktopApp;
use crate::error::LauncherError;
use crate::exec::{command_words, CommandLine};
use crate::text::{clone_strings, owned, views};

verus! {

broadcast use vstd::string::group_string_axioms;

/// The command that launches an application: privileged applications are
/// run through `pkexec`.
pub fn command_for_app(app: &DesktopApp, config: &Config) -> (r: CommandLine)
    ensures
        command_words(r) == if privileged(config.privileged_apps@, app.id@) {
            seq!["pkexec"@] + command_words(app.command)
        } else {
            command_words(app.command)
        },
{
    if config.is_privileged(app.id.as_str()) {
        let mut args: Vec<String> = Vec::new();
        args.push(app.command.program.clone());
        let mut rest = clone_strings(app.command.args.as_slice());
        let ghost first = views(args@);
        let ghost tail = views(rest@);
        args.append(&mut rest);
        assert(views(args@) =~= first + tail);
        let r = CommandLine { program: owned("pkexec"), args };
        assert(command_words(r) =~= seq!["pkexec"@] + command_words(app.command));
        r
    } else {
        let r = CommandLine {
            program: app.command.program.clone(),
            args: clone_strings(app.command.args.as_slice()),
        };
        r
    }
}

/// The error for a command that could not be started: a missing executable
/// when the system reports that the program was not found, and a launch
/// failure with the system's message otherwise.
pub fn spawn_error(app_name: &str, program: &str, not_found: bool, message: &str) -> (e:
    LauncherError)
    ensures
        not_found ==> (e matches LauncherError::MissingExecutable { app_name: a, program: p } && a@
            == app_name@ && p@ == program@),
        !not_found ==> (e matches LauncherError::Launch { app_name: a, source } && a@ == app_name@
            && source@ == message@),
{
    if not_found {
        LauncherError::MissingExecutable { app_name: owned(app_name), program: owned(program) }
    } else {
        LauncherError::Launch { app_name: owned(app_name), source: owned(message) }
    }
}

} // verus!
