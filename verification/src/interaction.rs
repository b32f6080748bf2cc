use vstd::prelude::*;
use vstd::string::StringExecFns;
use crate::desktop::DesktopApp;
use crate::favorites::{kept, str_views, Favorites, MAX_FAVORITES};
use crate::power::{action_name, PowerAction};
use crate::text::{eq_str, owned, push_char, views};

verus! {

broadcast use vstd::string::group_string_axioms;

/// A key press, as far as the launcher tells keys apart.
#[derive(Clone, Copy, Debug, PartialEq, Eq, Structural)]
pub enum KeyInput {
    Escape,
    Enter,
    Down,
    Up,
    Other,
}

/// What the launcher does about a key press.
#[derive(Clone, Copy, Debug, PartialEq, Eq, Structural)]
pub enum KeyAction {
    /// Close the window.
    Close,
    /// Launch the result at this position.
    LaunchVisible(usize),
    /// Launch the visible favorite at this position.
    LaunchFavorite(usize),
    /// Move the selection by this many rows.
    MoveSelection(i32),
    /// Ask for or run a power action.
    Power(PowerAction),
    /// Let the search field handle the key.
    Ignore,
}

/// The value of a decimal digit character.
pub open spec fn digit_value(c: char) -> Option<int> {
    if '0' <= c && c <= '9' {
        Some(c as int - '0' as int)
    } else {
        None
    }
}

/// What a key press does. `text` is the character the key types, `selected`
/// the selected result row, and `search_empty` whether the search field is
/// empty. Escape closes; Enter launches the selected result (the first when
/// none is selected); Ctrl+1..5 launch a favorite; Down/Ctrl+N and Up/Ctrl+P
/// move the selection; Alt+1..9 launch a result; and with an empty search,
/// `q`, `r` and `Q` log out, restart and power off.
pub open spec fn key_action(
    key: KeyInput,
    text: Option<char>,
    ctrl: bool,
    alt: bool,
    search_empty: bool,
    selected: Option<usize>,
) -> KeyAction {
    if key == KeyInput::Escape {
        KeyAction::Close
    } else if key == KeyInput::Enter {
        KeyAction::LaunchVisible(
            match selected {
                Some(i) => i,
                None => 0,
            },
        )
    } else if ctrl && (text matches Some(c) && digit_value(c) matches Some(d) && 1 <= d <= 5) {
        KeyAction::LaunchFavorite((digit_value(text->0)->0 - 1) as usize)
    } else if key == KeyInput::Down || (ctrl && text == Some('n')) {
        KeyAction::MoveSelection(1i32)
    } else if key == KeyInput::Up || (ctrl && text == Some('p')) {
        KeyAction::MoveSelection(-1i32)
    } else if alt && (text matches Some(c) && digit_value(c) matches Some(d) && 1 <= d <= 9) {
        KeyAction::LaunchVisible((digit_value(text->0)->0 - 1) as usize)
    } else if search_empty && text == Some('q') {
        KeyAction::Power(PowerAction::Logout)
    } else if search_empty && text == Some('r') {
        KeyAction::Power(PowerAction::Restart)
    } else if search_empty && text == Some('Q') {
        KeyAction::Power(PowerAction::Poweroff)
    } else {
        KeyAction::Ignore
    }
}

/// With an empty search field, typing `q` logs out, `r` restarts and `Q`
/// powers off, whatever the modifiers and the selection; with text in the
/// search field these letters are left to the field.
pub proof fn law_power_shortcuts(ctrl: bool, alt: bool, selected: Option<usize>)
    ensures
        key_action(KeyInput::Other, Some('q'), ctrl, alt, true, selected) == KeyAction::Power(
            PowerAction::Logout,
        ),
        key_action(KeyInput::Other, Some('r'), ctrl, alt, true, selected) == KeyAction::Power(
            PowerAction::Restart,
        ),
        key_action(KeyInput::Other, Some('Q'), ctrl, alt, true, selected) == KeyAction::Power(
            PowerAction::Poweroff,
        ),
        key_action(KeyInput::Other, Some('q'), ctrl, alt, false, selected) == KeyAction::Ignore,
        key_action(KeyInput::Other, Some('r'), ctrl, alt, false, selected) == KeyAction::Ignore,
        key_action(KeyInput::Other, Some('Q'), ctrl, alt, false, selected) == KeyAction::Ignore,
{
}

fn number_key(c: char) -> (r: Option<u32>)
    ensures
        match digit_value(c) {
            Some(d) => r == Some(d as u32),
            None => r is None,
        },
{
    if '0' <= c && c <= '9' {
        Some((c as u32) - ('0' as u32))
    } else {
        None
    }
}

/// What a key press does.
pub fn handle_key(
    key: KeyInput,
    text: Option<char>,
    ctrl: bool,
    alt: bool,
    search_empty: bool,
    selected: Option<usize>,
) -> (r: KeyAction)
    ensures
        r == key_action(key, text, ctrl, alt, search_empty, selected),
{
    if key == KeyInput::Escape {
        return KeyAction::Close;
    }
    if key == KeyInput::Enter {
        let index = match selected {
            Some(i) => i,
            None => 0,
        };
        return KeyAction::LaunchVisible(index);
    }
    let digit = match text {
        Some(c) => number_key(c),
        None => None,
    };
    if ctrl {
        if let Some(number) = digit {
            if 1 <= number && number <= 5 {
                return KeyAction::LaunchFavorite((number - 1) as usize);
            }
        }
    }
    if key == KeyInput::Down || (ctrl && text == Some('n')) {
        return KeyAction::MoveSelection(1);
    }
    if key == KeyInput::Up || (ctrl && text == Some('p')) {
        return KeyAction::MoveSelection(-1);
    }
    if alt {
        if let Some(number) = digit {
            if 1 <= number && number <= 9 {
                return KeyAction::LaunchVisible((number - 1) as usize);
            }
        }
    }
    if search_empty {
        if text == Some('q') {
            return KeyAction::Power(PowerAction::Logout);
        }
        if text == Some('r') {
            return KeyAction::Power(PowerAction::Restart);
        }
        if text == Some('Q') {
            return KeyAction::Power(PowerAction::Poweroff);
        }
    }
    KeyAction::Ignore
}

/// The row to select after moving `offset` rows from `current` (the first
/// row when none is selected), never above the first row.
pub fn moved_selection(current: Option<i32>, offset: i32) -> (r: i32)
    requires
        -1 <= offset <= 1,
        current matches Some(c) ==> c >= 0 && c + offset <= i32::MAX,
    ensures
        r == ({
            let c: int = match current {
                Some(c) => c as int,
                None => 0,
            };
            if c + offset < 0 {
                0
            } else {
                c + offset
            }
        }),
{
    let c = match current {
        Some(c) => c,
        None => 0,
    };
    let next = c + offset;
    if next < 0 {
        0
    } else {
        next
    }
}

// ---------------------------------------------------------------------------
// Power actions ask to be confirmed
// ---------------------------------------------------------------------------

/// What pressing a power action's button does.
#[derive(Clone, Copy, Debug, PartialEq, Eq, Structural)]
pub enum PowerStep {
    /// Ask the user to press again; the action is now pending.
    AskConfirmation,
    /// Run the action.
    Run,
}

/// The pending action and the step after pressing `action` while `pending`
/// waits for confirmation: a press runs the action only when it confirms the
/// pending one.
pub open spec fn power_press_spec(pending: Option<PowerAction>, action: PowerAction) -> (
    Option<PowerAction>,
    PowerStep,
) {
    if pending == Some(action) {
        (pending, PowerStep::Run)
    } else {
        (Some(action), PowerStep::AskConfirmation)
    }
}

/// A power action never runs on its first press: it runs exactly when the
/// same action is pending, and pressing it twice in a row runs it.
pub proof fn law_power_runs_only_when_confirmed(pending: Option<PowerAction>, action: PowerAction)
    ensures
        (power_press_spec(pending, action).1 == PowerStep::Run) == (pending == Some(action)),
        power_press_spec(power_press_spec(pending, action).0, action).1 == PowerStep::Run,
{
}

/// Presses the button of a power action.
pub fn power_press(pending: Option<PowerAction>, action: PowerAction) -> (r: (
    Option<PowerAction>,
    PowerStep,
))
    ensures
        r == power_press_spec(pending, action),
{
    let same = match pending {
        Some(p) => p == action,
        None => false,
    };
    if action.needs_confirmation() && !same {
        return (Some(action), PowerStep::AskConfirmation);
    }
    (pending, PowerStep::Run)
}

/// The message that asks to confirm an action.
pub fn confirmation_message(action: PowerAction) -> (r: String)
    ensures
        r@ == "Press "@ + action_name(action) + " again to confirm."@,
{
    let mut r = owned("Press ");
    r.append(action.command_name());
    r.append(" again to confirm.");
    r
}

/// The text of a result row: its `Alt` shortcut number, then the name.
pub fn result_label(index: usize, name: &str) -> (r: String)
    ensures
        r@ == "Alt+"@ + seq![('1' as u32 + (index % 9) as u32) as char] + "  "@ + name@,
{
    let mut r = owned("Alt+");
    let digit = (('1' as u32) + ((index % 9) as u32)) as u8;
    push_char(&mut r, digit as char);
    r.append("  ");
    r.append(name);
    r
}

/// The second line of a result row: the generic name, else the comment.
pub fn result_subtitle(app: &DesktopApp) -> (r: Option<&str>)
    ensures
        match r {
            Some(s) => match app.generic_name {
                Some(g) => s@ == g@,
                None => app.comment matches Some(c) && s@ == c@,
            },
            None => app.generic_name is None && app.comment is None,
        },
{
    match &app.generic_name {
        Some(g) => Some(g.as_str()),
        None => match &app.comment {
            Some(c) => Some(c.as_str()),
            None => None,
        },
    }
}

/// Where the icon of an application comes from.
#[derive(Clone, Copy, Debug, PartialEq, Eq)]
pub enum IconSource<'a> {
    /// An image file at this absolute path.
    File(&'a str),
    /// An icon of the icon theme with this name.
    Named(&'a str),
}

/// The icon shown for an application: its `Icon` as a file when it is an
/// absolute path, else as an icon name; a generic executable icon when it
/// has none.
pub fn icon_source(app: &DesktopApp) -> (r: IconSource<'_>)
    ensures
        match app.icon {
            Some(icon) => if icon@.len() > 0 && icon@[0] == '/' {
                r matches IconSource::File(p) && p@ == icon@
            } else {
                r matches IconSource::Named(n) && n@ == icon@
            },
            None => r matches IconSource::Named(n) && n@ == "application-x-executable"@,
        },
{
    match &app.icon {
        Some(icon) => {
            let icon = icon.as_str();
            if icon.unicode_len() > 0 && icon.get_char(0) == '/' {
                IconSource::File(icon)
            } else {
                IconSource::Named(icon)
            }
        },
        None => IconSource::Named("application-x-executable"),
    }
}

// ---------------------------------------------------------------------------
// The favorites panel
// ---------------------------------------------------------------------------

/// A slot of the favorites panel.
#[derive(Clone, Debug, PartialEq, Eq)]
pub enum FavoriteSlot {
    /// The favorite with this id, shown with this badge number.
    Filled { app_id: String, badge: usize },
    /// An empty slot with this badge number.
    Empty { badge: usize },
}

/// The filled slots: each available favorite with its position plus one as
/// its badge, in order.
pub open spec fn filled_slots(ids: Seq<Seq<char>>, available: Seq<Seq<char>>) -> Seq<(Seq<char>, int)>
    decreases ids.len(),
{
    if ids.len() == 0 {
        seq![]
    } else if available.contains(ids.last()) {
        filled_slots(ids.drop_last(), available).push((ids.last(), ids.len() as int))
    } else {
        filled_slots(ids.drop_last(), available)
    }
}

/// The view of a slot: `Some((id, badge))` for a favorite, `None` with the
/// badge for an empty slot.
pub open spec fn slot_view(s: FavoriteSlot) -> (Option<Seq<char>>, int) {
    match s {
        FavoriteSlot::Filled { app_id, badge } => (Some(app_id@), badge as int),
        FavoriteSlot::Empty { badge } => (None, badge as int),
    }
}

/// The slots of the favorites panel: the available favorites, then empty
/// slots numbered from one past the number of favorites up to the maximum.
pub open spec fn panel_slots(ids: Seq<Seq<char>>, available: Seq<Seq<char>>) -> Seq<(Option<Seq<char>>, int)> {
    filled_slots(ids, available).map_values(|f: (Seq<char>, int)| (Some(f.0), f.1)) + Seq::new(
        if ids.len() < MAX_FAVORITES {
            (MAX_FAVORITES - ids.len()) as nat
        } else {
            0
        },
        |k: int| (None::<Seq<char>>, ids.len() + k + 1),
    )
}

/// The slots of the favorites panel for the favorites and the ids of the
/// installed applications.
pub fn favorite_slots(favorites: &Favorites, available_ids: &[&str]) -> (r: Vec<FavoriteSlot>)
    requires
        favorites.items@.len() < usize::MAX,
    ensures
        r@.map_values(|s: FavoriteSlot| slot_view(s)) == panel_slots(
            favorites.ids(),
            str_views(available_ids@),
        ),
{
    let ghost ids = favorites.ids();
    let ghost avail = str_views(available_ids@);
    let mut slots: Vec<FavoriteSlot> = Vec::new();
    let mut i: usize = 0;
    let n = favorites.items.len();
    while i < n
        invariant
            n == favorites.items@.len(),
            n < usize::MAX,
            ids == favorites.ids(),
            avail == str_views(available_ids@),
            i <= n,
            slots@.map_values(|s: FavoriteSlot| slot_view(s)) == filled_slots(
                ids.take(i as int),
                avail,
            ).map_values(|f: (Seq<char>, int)| (Some(f.0), f.1)),
        decreases n - i,
    {
        assert(ids.take(i + 1).drop_last() == ids.take(i as int));
        let id = favorites.items[i].as_str();
        let mut found = false;
        let mut j: usize = 0;
        while j < available_ids.len()
            invariant
                j <= available_ids@.len(),
                avail == str_views(available_ids@),
                id@ == ids[i as int],
                found == (exists|k: int| 0 <= k < j && avail[k] == id@),
            decreases available_ids.len() - j,
        {
            if eq_str(available_ids[j], id) {
                assert(avail[j as int] == id@);
                found = true;
            }
            j = j + 1;
        }
        assert(found == avail.contains(id@));
        if found {
            let ghost before = slots@.map_values(|s: FavoriteSlot| slot_view(s));
            slots.push(FavoriteSlot::Filled { app_id: owned(id), badge: i + 1 });
            assert(slots@.map_values(|s: FavoriteSlot| slot_view(s)) == before.push(
                (Some(id@), i + 1),
            ));
        }
        i = i + 1;
    }
    assert(ids.take(n as int) == ids);
    let ghost filled = slots@.map_values(|s: FavoriteSlot| slot_view(s));
    let mut badge = n + 1;
    while badge <= MAX_FAVORITES
        invariant
            n == ids.len(),
            n + 1 <= badge,
            n < MAX_FAVORITES ==> badge <= MAX_FAVORITES + 1,
            n >= MAX_FAVORITES ==> badge == n + 1,
            slots@.map_values(|s: FavoriteSlot| slot_view(s)) == filled + Seq::new(
                (badge - n - 1) as nat,
                |k: int| (None::<Seq<char>>, n + k + 1),
            ),
        decreases MAX_FAVORITES + 1 - badge,
    {
        let ghost before = slots@.map_values(|s: FavoriteSlot| slot_view(s));
        slots.push(FavoriteSlot::Empty { badge });
        assert(slots@.map_values(|s: FavoriteSlot| slot_view(s)) == before.push(
            (None::<Seq<char>>, badge as int),
        ));
        assert(slots@.map_values(|s: FavoriteSlot| slot_view(s)) =~= filled + Seq::new(
            (badge + 1 - n - 1) as nat,
            |k: int| (None::<Seq<char>>, n + k + 1),
        ));
        badge = badge + 1;
    }
    assert(slots@.map_values(|s: FavoriteSlot| slot_view(s)) =~= panel_slots(ids, avail));
    slots
}

} // verus!
