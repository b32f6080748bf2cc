use vstd::prelude::*;
use crate::strmap::StringMap;
use crate::paths::{app_name, home_dir, home_or_here, join_path, joined, opt_str_view};
use crate::text::{owned, views};
use crate::APP_NAME;

verus! {

broadcast use vstd::string::group_string_axioms;

/// The user's configuration.
#[derive(Clone, Debug)]
pub struct Config {
    pub theme: String,
    pub commands: PowerCommands,
    pub privileged_apps: StringMap<bool>,
}

/// The commands that log out, restart and power off.
#[derive(Clone, Debug)]
pub struct PowerCommands {
    pub logout: Vec<String>,
    pub restart: Vec<String>,
    pub poweroff: Vec<String>,
}

pub open spec fn default_theme_name() -> Seq<char> {
    "catppuccin-mocha"@
}

pub open spec fn default_logout_words() -> Seq<Seq<char>> {
    seq!["systemctl"@, "--user"@, "exit"@]
}

pub open spec fn default_restart_words() -> Seq<Seq<char>> {
    seq!["systemctl"@, "reboot"@]
}

pub open spec fn default_poweroff_words() -> Seq<Seq<char>> {
    seq!["systemctl"@, "poweroff"@]
}

/// The theme used when the configuration names none.
pub fn default_theme() -> (r: String)
    ensures
        r@ == default_theme_name(),
{
    owned("catppuccin-mocha")
}

fn words2(a: &str, b: &str) -> (r: Vec<String>)
    ensures
        views(r@) == seq![a@, b@],
{
    let mut r: Vec<String> = Vec::new();
    r.push(owned(a));
    r.push(owned(b));
    assert(views(r@) =~= seq![a@, b@]);
    r
}

/// `systemctl --user exit`.
pub fn default_logout() -> (r: Vec<String>)
    ensures
        views(r@) == default_logout_words(),
{
    let mut r = words2("systemctl", "--user");
    let ghost before = views(r@);
    r.push(owned("exit"));
    assert(views(r@) =~= before.push("exit"@));
    r
}

/// `systemctl reboot`.
pub fn default_restart() -> (r: Vec<String>)
    ensures
        views(r@) == default_restart_words(),
{
    words2("systemctl", "reboot")
}

/// `systemctl poweroff`.
pub fn default_poweroff() -> (r: Vec<String>)
    ensures
        views(r@) == default_poweroff_words(),
{
    words2("systemctl", "poweroff")
}

impl Default for PowerCommands {
    fn default() -> (c: Self)
        ensures
            views(c.logout@) == default_logout_words(),
            views(c.restart@) == default_restart_words(),
            views(c.poweroff@) == default_poweroff_words(),
    {
        PowerCommands {
            logout: default_logout(),
            restart: default_restart(),
            poweroff: default_poweroff(),
        }
    }
}

impl Default for Config {
    fn default() -> (c: Self)
        ensures
            c.theme@ == default_theme_name(),
            views(c.commands.logout@) == default_logout_words(),
            views(c.commands.restart@) == default_restart_words(),
            views(c.commands.poweroff@) == default_poweroff_words(),
            c.privileged_apps@ == Map::<Seq<char>, bool>::empty(),
    {
        Config {
            theme: default_theme(),
            commands: PowerCommands::default(),
            privileged_apps: StringMap::new(),
        }
    }
}

/// The application is listed as privileged, with `true`.
pub open spec fn privileged(apps: Map<Seq<char>, bool>, app_id: Seq<char>) -> bool {
    apps.contains_key(app_id) && apps[app_id]
}

impl Config {
    /// Whether the application must be launched with elevated privileges.
    pub fn is_privileged(&self, app_id: &str) -> (r: bool)
        ensures
            r == privileged(self.privileged_apps@, app_id@),
    {
        match self.privileged_apps.get(app_id) {
            Some(value) => *value,
            None => false,
        }
    }
}

/// Where the configuration file is: under `$XDG_CONFIG_HOME` when it is set,
/// under `~/.config` otherwise.
pub open spec fn config_file(config_home: Option<Seq<char>>, home: Option<Seq<char>>) -> Seq<char> {
    match config_home {
        Some(c) => joined(joined(c, app_name()), "config.toml"@),
        None => joined(
            joined(joined(home_or_here(home), ".config"@), app_name()),
            "config.toml"@,
        ),
    }
}

/// The configuration file, given the values of `XDG_CONFIG_HOME` and `HOME`.
pub fn config_path_with_env(config_home: Option<&str>, home: Option<&str>) -> (r: String)
    ensures
        r@ == config_file(opt_str_view(config_home), opt_str_view(home)),
{
    match config_home {
        Some(c) => {
            let dir = join_path(c, APP_NAME);
            join_path(dir.as_str(), "config.toml")
        },
        None => {
            let base = join_path(home_dir(home), ".config");
            let dir = join_path(base.as_str(), APP_NAME);
            join_path(dir.as_str(), "config.toml")
        },
    }
}

} // verus!
