use vstd::prelude::*;
use crate::favorites::Favorites;
use crate::strmap::StringMap;
use crate::paths::{app_name, home_dir, home_or_here, join_path, joined, opt_str_view};
use crate::text::owned;
use crate::APP_NAME;

verus! {

broadcast use vstd::string::group_string_axioms;

/// The version of the state file format.
pub const STATE_VERSION: u32 = 1;

/// What the launcher remembers between runs.
#[derive(Clone, Debug)]
pub struct LauncherState {
    pub version: u32,
    pub favorites: Favorites,
    pub launch_counts: StringMap<u64>,
    pub last_selected_app: Option<String>,
}

/// The version of a state file that does not say.
pub fn default_version() -> (v: u32)
    ensures
        v == STATE_VERSION,
{
    STATE_VERSION
}

/// How often an application was launched, 0 if never.
pub open spec fn count_of(counts: Map<Seq<char>, u64>, app_id: Seq<char>) -> u64 {
    if counts.contains_key(app_id) {
        counts[app_id]
    } else {
        0
    }
}

/// Recording a launch counts exactly one more launch of that application and
/// changes no other count.
pub proof fn law_record_launch_counts_one(
    before: Map<Seq<char>, u64>,
    app_id: Seq<char>,
    other: Seq<char>,
)
    requires
        count_of(before, app_id) < u64::MAX,
    ensures
        ({
            let after = before.insert(app_id, (count_of(before, app_id) + 1) as u64);
            &&& count_of(after, app_id) == count_of(before, app_id) + 1
            &&& other != app_id ==> count_of(after, other) == count_of(before, other)
        }),
{
}

impl Default for LauncherState {
    fn default() -> (s: Self)
        ensures
            s.version == STATE_VERSION,
            s.favorites.ids() == Seq::<Seq<char>>::empty(),
            s.launch_counts@ == Map::<Seq<char>, u64>::empty(),
            s.last_selected_app is None,
    {
        LauncherState {
            version: default_version(),
            favorites: Favorites::new(),
            launch_counts: StringMap::new(),
            last_selected_app: None,
        }
    }
}

impl LauncherState {
    /// Counts one more launch of the application and remembers it as the last
    /// one selected.
    pub fn record_launch(&mut self, app_id: &str)
        requires
            count_of(old(self).launch_counts@, app_id@) < u64::MAX,
        ensures
            final(self).launch_counts@ == old(self).launch_counts@.insert(
                app_id@,
                (count_of(old(self).launch_counts@, app_id@) + 1) as u64,
            ),
            final(self).last_selected_app matches Some(s) && s@ == app_id@,
            final(self).version == old(self).version,
            final(self).favorites == old(self).favorites,
    {
        let count: u64 = match self.launch_counts.get(app_id) {
            Some(c) => *c,
            None => 0,
        };
        self.launch_counts.insert(owned(app_id), count + 1);
        self.last_selected_app = Some(owned(app_id));
    }
}

/// Where the state file is: under `$XDG_STATE_HOME` when it is set, under
/// `~/.local/state` otherwise.
pub open spec fn state_file(state_home: Option<Seq<char>>, home: Option<Seq<char>>) -> Seq<char> {
    match state_home {
        Some(s) => joined(joined(s, app_name()), "state.toml"@),
        None => joined(
            joined(joined(home_or_here(home), ".local/state"@), app_name()),
            "state.toml"@,
        ),
    }
}

/// The state file, given the values of `XDG_STATE_HOME` and `HOME`.
pub fn state_path_with_env(state_home: Option<&str>, home: Option<&str>) -> (r: String)
    ensures
        r@ == state_file(opt_str_view(state_home), opt_str_view(home)),
{
    match state_home {
        Some(s) => {
            let dir = join_path(s, APP_NAME);
            join_path(dir.as_str(), "state.toml")
        },
        None => {
            let base = join_path(home_dir(home), ".local/state");
            let dir = join_path(base.as_str(), APP_NAME);
            join_path(dir.as_str(), "state.toml")
        },
    }
}

} // verus!
