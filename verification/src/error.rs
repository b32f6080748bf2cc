use vstd::prelude::*;
use vstd::string::StringExecFns;

verus! {

/// The errors of the launcher. Errors that come from the operating system or
/// from a TOML library carry that error's message as `source`.
#[derive(Clone, Debug, PartialEq, Eq)]
pub enum LauncherError {
    ReadFile { path: String, source: String },
    WriteFile { path: String, source: String },
    ParseToml { path: String, source: String },
    SerializeToml { path: String, source: String },
    DesktopEntry { path: String, reason: String },
    ExecLine { exec_line: String, reason: String },
    MissingExecutable { app_name: String, program: String },
    Launch { app_name: String, source: String },
    Theme { theme: String, reason: String },
}

/// The message that describes an error.
pub open spec fn message(e: LauncherError) -> Seq<char> {
    match e {
        LauncherError::ReadFile { path, source } => "Could not read "@ + path@ + ": "@ + source@,
        LauncherError::WriteFile { path, source } => "Could not write "@ + path@ + ": "@ + source@,
        LauncherError::ParseToml { path, source } => "Could not parse TOML at "@ + path@ + ": "@
            + source@,
        LauncherError::SerializeToml { path, source } => "Could not serialize TOML for "@ + path@
            + ": "@ + source@,
        LauncherError::DesktopEntry { path, reason } => "Could not parse desktop entry: "@ + path@
            + ": "@ + reason@,
        LauncherError::ExecLine { exec_line, reason } => "Could not parse Exec line `"@ + exec_line@ + "`: "@
            + reason@,
        LauncherError::MissingExecutable { app_name, program } => "Could not launch "@ + app_name@
            + ": executable `"@ + program@ + "` was not found"@,
        LauncherError::Launch { app_name, source } => "Could not launch "@ + app_name@ + ": "@
            + source@,
        LauncherError::Theme { theme, reason } => "Could not load theme `"@ + theme@ + "`: "@
            + reason@,
    }
}

fn join4(a: &str, b: &str, c: &str, d: &str) -> (r: String)
    ensures
        r@ == a@ + b@ + c@ + d@,
{
    let mut r = String::from_str(a);
    r.append(b);
    r.append(c);
    r.append(d);
    r
}

fn join5(a: &str, b: &str, c: &str, d: &str, e: &str) -> (r: String)
    ensures
        r@ == a@ + b@ + c@ + d@ + e@,
{
    let mut r = join4(a, b, c, d);
    r.append(e);
    r
}

impl LauncherError {
    /// The message that describes this error.
    pub fn to_string(&self) -> (r: String)
        ensures
            r@ == message(*self),
    {
        match self {
            LauncherError::ReadFile { path, source } => join4(
                "Could not read ",
                path.as_str(),
                ": ",
                source.as_str(),
            ),
            LauncherError::WriteFile { path, source } => join4(
                "Could not write ",
                path.as_str(),
                ": ",
                source.as_str(),
            ),
            LauncherError::ParseToml { path, source } => join4(
                "Could not parse TOML at ",
                path.as_str(),
                ": ",
                source.as_str(),
            ),
            LauncherError::SerializeToml { path, source } => join4(
                "Could not serialize TOML for ",
                path.as_str(),
                ": ",
                source.as_str(),
            ),
            LauncherError::DesktopEntry { path, reason } => join4(
                "Could not parse desktop entry: ",
                path.as_str(),
                ": ",
                reason.as_str(),
            ),
            LauncherError::ExecLine { exec_line, reason } => join4(
                "Could not parse Exec line `",
                exec_line.as_str(),
                "`: ",
                reason.as_str(),
            ),
            LauncherError::MissingExecutable { app_name, program } => join5(
                "Could not launch ",
                app_name.as_str(),
                ": executable `",
                program.as_str(),
                "` was not found",
            ),
            LauncherError::Launch { app_name, source } => join4(
                "Could not launch ",
                app_name.as_str(),
                ": ",
                source.as_str(),
            ),
            LauncherError::Theme { theme, reason } => join4(
                "Could not load theme `",
                theme.as_str(),
                "`: ",
                reason.as_str(),
            ),
        }
    }
}

} // verus!
