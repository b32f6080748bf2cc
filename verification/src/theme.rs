use vstd::prelude::*;
use vstd::string::StringExecFns;
use crate::error::LauncherError;
use crate::paths::{
    app_name, file_name_of, join_path, joined, opt_str_view, parent_of, path_file_name, path_parent,
    push_unique, with_unique,
};
use crate::text::{chars_of, eq_str, owned, views};
use crate::APP_NAME;

verus! {

broadcast use vstd::string::group_string_axioms;

/// The colors of the launcher.
#[derive(Clone, Debug, PartialEq, Eq)]
pub struct Theme {
    pub name: String,
    pub window_background: String,
    pub panel_background: String,
    pub search_background: String,
    pub search_text: String,
    pub list_item_background: String,
    pub list_item_hover: String,
    pub list_item_selected: String,
    pub text: String,
    pub muted_text: String,
    pub accent: String,
    pub warning: String,
    pub error: String,
    pub border: String,
    pub favorite_active: String,
    pub favorite_inactive: String,
}

/// The colors of a theme with their names, in the order they are checked.
pub open spec fn colors(t: Theme) -> Seq<(Seq<char>, Seq<char>)> {
    seq![
        ("window_background"@, t.window_background@),
        ("panel_background"@, t.panel_background@),
        ("search_background"@, t.search_background@),
        ("search_text"@, t.search_text@),
        ("list_item_background"@, t.list_item_background@),
        ("list_item_hover"@, t.list_item_hover@),
        ("list_item_selected"@, t.list_item_selected@),
        ("text"@, t.text@),
        ("muted_text"@, t.muted_text@),
        ("accent"@, t.accent@),
        ("warning"@, t.warning@),
        ("error"@, t.error@),
        ("border"@, t.border@),
        ("favorite_active"@, t.favorite_active@),
        ("favorite_inactive"@, t.favorite_inactive@)
    ]
}

/// `c` is an ASCII hexadecimal digit.
pub open spec fn is_hex_digit(c: char) -> bool {
    ('0' <= c && c <= '9') || ('a' <= c && c <= 'f') || ('A' <= c && c <= 'F')
}

/// `s` without one leading `#`.
pub open spec fn color_digits(s: Seq<char>) -> Seq<char> {
    if s.len() > 0 && s[0] == '#' {
        s.drop_first()
    } else {
        s
    }
}

/// `s` is six or eight hexadecimal digits, optionally after one `#`.
pub open spec fn hex_color(s: Seq<char>) -> bool {
    &&& (color_digits(s).len() == 6 || color_digits(s).len() == 8)
    &&& forall|i: int| 0 <= i < color_digits(s).len() ==> is_hex_digit(#[trigger] color_digits(s)[i])
}

/// The name of the first color that is not a valid hex color.
pub open spec fn first_invalid(colors: Seq<(Seq<char>, Seq<char>)>) -> Option<Seq<char>>
    decreases colors.len(),
{
    if colors.len() == 0 {
        None
    } else if !hex_color(colors[0].1) {
        Some(colors[0].0)
    } else {
        first_invalid(colors.drop_first())
    }
}

/// A theme passes validation exactly when every one of its colors is a hex color.
pub proof fn law_valid_exactly_when_all_hex(colors: Seq<(Seq<char>, Seq<char>)>)
    ensures
        (first_invalid(colors) is None) == (forall|i: int|
            0 <= i < colors.len() ==> hex_color(#[trigger] colors[i].1)),
    decreases colors.len(),
{
    if colors.len() > 0 {
        law_valid_exactly_when_all_hex(colors.drop_first());
        if first_invalid(colors) is None {
            assert forall|i: int| 0 <= i < colors.len() implies hex_color(#[trigger] colors[i].1) by {
                if i > 0 {
                    assert(colors.drop_first()[i - 1] == colors[i]);
                }
            }
        } else if hex_color(colors[0].1) {
            let i = choose|i: int|
                0 <= i < colors.drop_first().len() && !hex_color(#[trigger] colors.drop_first()[i].1);
            assert(colors[i + 1] == colors.drop_first()[i]);
        }
    }
}

/// Whether `value` is a hex color such as `#1e1e2e` or `1e1e2eff`.
pub fn is_hex_color(value: &str) -> (r: bool)
    ensures
        r == hex_color(value@),
{
    let chars = chars_of(value);
    let start: usize = if chars.len() > 0 && chars[0] == '#' {
        1
    } else {
        0
    };
    let ghost digits = color_digits(value@);
    assert(digits == chars@.skip(start as int));
    let count = chars.len() - start;
    assert(digits.len() == count);
    if count != 6 && count != 8 {
        return false;
    }
    let mut i = start;
    while i < chars.len()
        invariant
            start <= i <= chars@.len(),
            chars@ == value@,
            digits == color_digits(value@),
            digits == chars@.skip(start as int),
            forall|j: int| 0 <= j < i - start ==> is_hex_digit(#[trigger] digits[j]),
        decreases chars.len() - i,
    {
        let c = chars[i];
        if !(('0' <= c && c <= '9') || ('a' <= c && c <= 'f') || ('A' <= c && c <= 'F')) {
            assert(!is_hex_digit(color_digits(value@)[i - start]));
            return false;
        }
        i = i + 1;
    }
    true
}

pub const CSS_0: &'static str = "\n.launcher-window {\n    background-color: ";
pub const CSS_1: &'static str = ";\n    color: ";
pub const CSS_2: &'static str = ";\n}\n\n.launcher-root {\n    background-color: ";
pub const CSS_3: &'static str = ";\n    border: 1px solid ";
pub const CSS_4: &'static str = ";\n    border-radius: 16px;\n    padding: 8px;\n}\n\n.launcher-content,\n.launcher-panel,\n.launcher-bottom,\n.launcher-actions-panel,\n.launcher-results-frame,\n.launcher-results-frame viewport,\n.launcher-results {\n    background-color: ";
pub const CSS_5: &'static str = ";\n    color: ";
pub const CSS_6: &'static str = ";\n}\n\n.launcher-panel {\n    background-color: ";
pub const CSS_7: &'static str = ";\n    border: 1px solid ";
pub const CSS_8: &'static str = ";\n    border-radius: 8px;\n    padding: 8px 7px;\n}\n\n.launcher-actions-panel {\n    background-color: ";
pub const CSS_9: &'static str = ";\n    border: 1px solid ";
pub const CSS_10: &'static str = ";\n    border-radius: 10px;\n    padding: 7px 8px;\n    min-height: 44px;\n}\n\n.launcher-search {\n    background-color: ";
pub const CSS_11: &'static str = ";\n    background-image: none;\n    color: ";
pub const CSS_12: &'static str = ";\n    border: 1px solid ";
pub const CSS_13: &'static str = ";\n    border-radius: 10px;\n    padding: 8px 10px;\n}\n\n.launcher-search text,\n.launcher-search selection {\n    color: ";
pub const CSS_14: &'static str = ";\n}\n\n.launcher-result-row {\n    background-color: transparent;\n    background-image: none;\n    padding: 0;\n}\n\n.launcher-result-surface,\n.launcher-row {\n    background-color: ";
pub const CSS_15: &'static str = ";\n    background-image: none;\n    color: ";
pub const CSS_16: &'static str = ";\n    border-radius: 8px;\n    padding: 6px 10px;\n}\n\n.launcher-results row:hover .launcher-result-surface,\n.launcher-row:hover {\n    background-color: ";
pub const CSS_17: &'static str = ";\n}\n\n.launcher-results row:selected,\n.launcher-results row:selected .launcher-result-surface,\n.launcher-results row:selected .launcher-row,\n.launcher-row:selected {\n    background-image: none;\n    border-radius: 8px;\n}\n\n.launcher-results row:selected .launcher-result-surface,\n.launcher-results row:selected .launcher-row,\n.launcher-row:selected {\n    background-color: ";
pub const CSS_18: &'static str = ";\n    color: ";
pub const CSS_19: &'static str = ";\n}\n\n.launcher-row-actions {\n    min-width: 48px;\n}\n\nbutton.launcher-button {\n    background-color: ";
pub const CSS_20: &'static str = ";\n    background-image: none;\n    color: ";
pub const CSS_21: &'static str = ";\n    border: 1px solid ";
pub const CSS_22: &'static str = ";\n    border-radius: 9px;\n    padding: 6px 12px;\n    box-shadow: none;\n    text-shadow: none;\n}\n\nbutton.launcher-button label {\n    color: ";
pub const CSS_23: &'static str = ";\n    text-shadow: none;\n}\n\nbutton.launcher-button:hover {\n    background-color: ";
pub const CSS_24: &'static str = ";\n    background-image: none;\n    border-color: ";
pub const CSS_25: &'static str = ";\n}\n\nbutton.launcher-button:active {\n    background-color: ";
pub const CSS_26: &'static str = ";\n    background-image: none;\n}\n\nbutton.launcher-button:disabled {\n    background-color: ";
pub const CSS_27: &'static str = ";\n    background-image: none;\n    color: ";
pub const CSS_28: &'static str = ";\n    border-color: ";
pub const CSS_29: &'static str = ";\n    opacity: 0.55;\n}\n\nbutton.launcher-button:disabled label {\n    color: ";
pub const CSS_30: &'static str = ";\n}\n\nbutton.launcher-icon-button {\n    min-width: 34px;\n    min-height: 34px;\n    margin: 0;\n    padding: 4px;\n}\n\nbutton.launcher-power-button {\n    min-width: 86px;\n    font-weight: 600;\n}\n\nbutton.launcher-logout-button {\n    background-color: alpha(";
pub const CSS_31: &'static str = ", 0.18);\n    border-color: alpha(";
pub const CSS_32: &'static str = ", 0.55);\n}\n\nbutton.launcher-logout-button label {\n    color: ";
pub const CSS_33: &'static str = ";\n}\n\nbutton.launcher-restart-button {\n    background-color: alpha(";
pub const CSS_34: &'static str = ", 0.14);\n    border-color: alpha(";
pub const CSS_35: &'static str = ", 0.50);\n}\n\nbutton.launcher-restart-button label {\n    color: ";
pub const CSS_36: &'static str = ";\n}\n\nbutton.launcher-poweroff-button {\n    background-color: alpha(";
pub const CSS_37: &'static str = ", 0.14);\n    border-color: alpha(";
pub const CSS_38: &'static str = ", 0.50);\n}\n\nbutton.launcher-poweroff-button label {\n    color: ";
pub const CSS_39: &'static str = ";\n}\n\nbutton.launcher-favorite-button {\n    background-color: alpha(";
pub const CSS_40: &'static str = ", 0.14);\n    border-color: alpha(";
pub const CSS_41: &'static str = ", 0.45);\n    color: ";
pub const CSS_42: &'static str = ";\n}\n\nbutton.launcher-favorite-button label {\n    color: ";
pub const CSS_43: &'static str = ";\n}\n\nbutton.launcher-favorite-slot {\n    background-color: transparent;\n    background-image: none;\n    border: 1px solid transparent;\n    border-radius: 10px;\n    min-width: 48px;\n    min-height: 48px;\n    padding: 2px;\n    box-shadow: none;\n}\n\nbutton.launcher-favorite-slot:hover {\n    background-color: alpha(";
pub const CSS_44: &'static str = ", 0.12);\n    background-image: none;\n    border-color: alpha(";
pub const CSS_45: &'static str = ", 0.35);\n}\n\n.launcher-favorite-tile,\n.launcher-favorite-placeholder {\n    background-color: alpha(";
pub const CSS_46: &'static str = ", 0.50);\n    border: 1px solid alpha(";
pub const CSS_47: &'static str = ", 0.65);\n    border-radius: 10px;\n    min-width: 42px;\n    min-height: 42px;\n}\n\n.launcher-favorite-placeholder {\n    background-color: alpha(";
pub const CSS_48: &'static str = ", 0.55);\n    border-color: alpha(";
pub const CSS_49: &'static str = ", 0.40);\n}\n\n.launcher-favorite-empty {\n    min-width: 48px;\n    min-height: 48px;\n    margin: 2px;\n}\n\n.launcher-favorite-badge {\n    background-color: ";
pub const CSS_50: &'static str = ";\n    color: ";
pub const CSS_51: &'static str = ";\n    border-radius: 999px;\n    min-width: 17px;\n    min-height: 17px;\n    padding: 0;\n    margin: 0;\n    font-size: 10px;\n    font-weight: 700;\n}\n\n.launcher-muted {\n    color: ";
pub const CSS_52: &'static str = ";\n}\n\n.launcher-accent {\n    color: ";
pub const CSS_53: &'static str = ";\n}\n\n.launcher-favorite-active {\n    color: ";
pub const CSS_54: &'static str = ";\n}\n\n.launcher-favorite-inactive {\n    color: ";
pub const CSS_55: &'static str = ";\n}\n\n.launcher-danger {\n    color: ";
pub const CSS_56: &'static str = ";\n}\n\n.launcher-warning {\n    color: ";
pub const CSS_57: &'static str = ";\n}\n";

/// The style sheet of a theme: the launcher's CSS with the theme's colors
/// filled in.
pub open spec fn theme_css(t: Theme) -> Seq<char> {
    CSS_0@
        + t.window_background@
        + CSS_1@
        + t.text@
        + CSS_2@
        + t.window_background@
        + CSS_3@
        + t.border@
        + CSS_4@
        + t.window_background@
        + CSS_5@
        + t.text@
        + CSS_6@
        + t.panel_background@
        + CSS_7@
        + t.panel_background@
        + CSS_8@
        + t.panel_background@
        + CSS_9@
        + t.border@
        + CSS_10@
        + t.search_background@
        + CSS_11@
        + t.search_text@
        + CSS_12@
        + t.border@
        + CSS_13@
        + t.search_text@
        + CSS_14@
        + t.list_item_background@
        + CSS_15@
        + t.text@
        + CSS_16@
        + t.list_item_hover@
        + CSS_17@
        + t.list_item_selected@
        + CSS_18@
        + t.text@
        + CSS_19@
        + t.search_background@
        + CSS_20@
        + t.text@
        + CSS_21@
        + t.border@
        + CSS_22@
        + t.text@
        + CSS_23@
        + t.list_item_hover@
        + CSS_24@
        + t.accent@
        + CSS_25@
        + t.list_item_selected@
        + CSS_26@
        + t.panel_background@
        + CSS_27@
        + t.muted_text@
        + CSS_28@
        + t.border@
        + CSS_29@
        + t.muted_text@
        + CSS_30@
        + t.accent@
        + CSS_31@
        + t.accent@
        + CSS_32@
        + t.accent@
        + CSS_33@
        + t.warning@
        + CSS_34@
        + t.warning@
        + CSS_35@
        + t.warning@
        + CSS_36@
        + t.error@
        + CSS_37@
        + t.error@
        + CSS_38@
        + t.error@
        + CSS_39@
        + t.accent@
        + CSS_40@
        + t.accent@
        + CSS_41@
        + t.accent@
        + CSS_42@
        + t.accent@
        + CSS_43@
        + t.accent@
        + CSS_44@
        + t.accent@
        + CSS_45@
        + t.search_background@
        + CSS_46@
        + t.border@
        + CSS_47@
        + t.panel_background@
        + CSS_48@
        + t.border@
        + CSS_49@
        + t.accent@
        + CSS_50@
        + t.window_background@
        + CSS_51@
        + t.muted_text@
        + CSS_52@
        + t.accent@
        + CSS_53@
        + t.favorite_active@
        + CSS_54@
        + t.favorite_inactive@
        + CSS_55@
        + t.error@
        + CSS_56@
        + t.warning@
        + CSS_57@
}

/// `needle` occurs in `hay`.
pub open spec fn has_text(hay: Seq<char>, needle: Seq<char>) -> bool {
    exists|a: Seq<char>, b: Seq<char>| hay == a + needle + b
}

proof fn lemma_has_text_extends(needle: Seq<char>)
    ensures
        forall|x: Seq<char>, y: Seq<char>|
            has_text(x, needle) ==> #[trigger] has_text(x + y, needle),
{
    assert forall|x: Seq<char>, y: Seq<char>| has_text(x, needle) implies #[trigger] has_text(
        x + y,
        needle,
    ) by {
        let (a, b) = choose|a: Seq<char>, b: Seq<char>| x == a + needle + b;
        assert(x + y =~= a + needle + (b + y));
    }
}

/// The rule of the power-off button: its background and border are the
/// theme's error color, and so is its label.
pub open spec fn poweroff_rule(t: Theme) -> Seq<char> {
    "button.launcher-poweroff-button {\n    background-color: alpha("@ + t.error@
        + ", 0.14);\n    border-color: alpha("@ + t.error@
        + ", 0.50);\n}\n\nbutton.launcher-poweroff-button label {\n    color: "@ + t.error@
        + ";\n}"@
}

/// The style sheet gives the power-off button the theme's error color, for
/// its background, its border and its label.
pub proof fn law_poweroff_button_uses_error_color(t: Theme)
    ensures
        has_text(theme_css(t), poweroff_rule(t)),
{
    let e = t.error@;
    let needle = poweroff_rule(t);
    reveal_strlit(";\n}\n\nbutton.launcher-poweroff-button {\n    background-color: alpha(");
    reveal_strlit(", 0.14);\n    border-color: alpha(");
    reveal_strlit(", 0.50);\n}\n\nbutton.launcher-poweroff-button label {\n    color: ");
    reveal_strlit(";\n}\n\nbutton.launcher-favorite-button {\n    background-color: alpha(");
    reveal_strlit("button.launcher-poweroff-button {\n    background-color: alpha(");
    reveal_strlit(", 0.50);\n}\n\nbutton.launcher-poweroff-button label {\n    color: ");
    reveal_strlit(";\n}");
    reveal_strlit(";\n}\n\n");
    reveal_strlit("\n\nbutton.launcher-favorite-button {\n    background-color: alpha(");
    let head = ";\n}\n\n"@;
    let tail = "\n\nbutton.launcher-favorite-button {\n    background-color: alpha("@;
    assert(CSS_36@ =~= head + "button.launcher-poweroff-button {\n    background-color: alpha("@);
    assert(CSS_39@ =~= ";\n}"@ + tail);
    assert forall|p: Seq<char>|
        #![trigger has_text(p + CSS_36@ + e + CSS_37@ + e + CSS_38@ + e + CSS_39@, needle)]
        has_text(p + CSS_36@ + e + CSS_37@ + e + CSS_38@ + e + CSS_39@, needle) by {
        assert(p + CSS_36@ + e + CSS_37@ + e + CSS_38@ + e + CSS_39@ =~= (p + head) + needle
            + tail);
    }
    lemma_has_text_extends(needle);
}

/// The rule of the restart button: its background, border and label are the
/// theme's warning color.
pub open spec fn restart_rule(t: Theme) -> Seq<char> {
    "button.launcher-restart-button {\n    background-color: alpha("@ + t.warning@
        + ", 0.14);\n    border-color: alpha("@ + t.warning@
        + ", 0.50);\n}\n\nbutton.launcher-restart-button label {\n    color: "@ + t.warning@
        + ";\n}"@
}

/// The style sheet gives the restart button the theme's warning color, for
/// its background, its border and its label.
pub proof fn law_restart_button_uses_warning_color(t: Theme)
    ensures
        has_text(theme_css(t), restart_rule(t)),
{
    let w = t.warning@;
    let needle = restart_rule(t);
    reveal_strlit(";\n}\n\nbutton.launcher-restart-button {\n    background-color: alpha(");
    reveal_strlit(", 0.14);\n    border-color: alpha(");
    reveal_strlit(", 0.50);\n}\n\nbutton.launcher-restart-button label {\n    color: ");
    reveal_strlit(";\n}\n\nbutton.launcher-poweroff-button {\n    background-color: alpha(");
    reveal_strlit("button.launcher-restart-button {\n    background-color: alpha(");
    reveal_strlit(";\n}");
    let start = "button.launcher-restart-button {\n    background-color: alpha("@;
    let head = CSS_33@.subrange(0, CSS_33@.len() - start.len());
    let tail = CSS_36@.subrange(3, CSS_36@.len() as int);
    assert(CSS_33@ =~= head + start);
    assert(CSS_36@ =~= ";\n}"@ + tail);
    assert forall|p: Seq<char>|
        #![trigger has_text(p + CSS_33@ + w + CSS_34@ + w + CSS_35@ + w + CSS_36@, needle)]
        has_text(p + CSS_33@ + w + CSS_34@ + w + CSS_35@ + w + CSS_36@, needle) by {
        assert(p + CSS_33@ + w + CSS_34@ + w + CSS_35@ + w + CSS_36@ =~= (p + head) + needle
            + tail);
    }
    lemma_has_text_extends(needle);
}

/// The rule of the log-out button: its background, border and label are the
/// theme's accent color.
pub open spec fn logout_rule(t: Theme) -> Seq<char> {
    "button.launcher-logout-button {\n    background-color: alpha("@ + t.accent@
        + ", 0.18);\n    border-color: alpha("@ + t.accent@
        + ", 0.55);\n}\n\nbutton.launcher-logout-button label {\n    color: "@ + t.accent@
        + ";\n}"@
}

/// The style sheet gives the log-out button the theme's accent color, for
/// its background, its border and its label.
pub proof fn law_logout_button_uses_accent_color(t: Theme)
    ensures
        has_text(theme_css(t), logout_rule(t)),
{
    let a = t.accent@;
    let needle = logout_rule(t);
    reveal_strlit(
        ";\n}\n\nbutton.launcher-icon-button {\n    min-width: 34px;\n    min-height: 34px;\n    margin: 0;\n    padding: 4px;\n}\n\nbutton.launcher-power-button {\n    min-width: 86px;\n    font-weight: 600;\n}\n\nbutton.launcher-logout-button {\n    background-color: alpha(",
    );
    reveal_strlit(", 0.18);\n    border-color: alpha(");
    reveal_strlit(", 0.55);\n}\n\nbutton.launcher-logout-button label {\n    color: ");
    reveal_strlit(";\n}\n\nbutton.launcher-restart-button {\n    background-color: alpha(");
    reveal_strlit("button.launcher-logout-button {\n    background-color: alpha(");
    reveal_strlit(";\n}");
    let start = "button.launcher-logout-button {\n    background-color: alpha("@;
    let head = CSS_30@.subrange(0, CSS_30@.len() - start.len());
    let tail = CSS_33@.subrange(3, CSS_33@.len() as int);
    assert(CSS_30@ =~= head + start);
    assert(CSS_33@ =~= ";\n}"@ + tail);
    assert forall|p: Seq<char>|
        #![trigger has_text(p + CSS_30@ + a + CSS_31@ + a + CSS_32@ + a + CSS_33@, needle)]
        has_text(p + CSS_30@ + a + CSS_31@ + a + CSS_32@ + a + CSS_33@, needle) by {
        assert(p + CSS_30@ + a + CSS_31@ + a + CSS_32@ + a + CSS_33@ =~= (p + head) + needle
            + tail);
    }
    lemma_has_text_extends(needle);
}

impl Theme {
    /// Checks that every color is a hex color; the error names the first
    /// one that is not.
    pub fn validate(&self, theme_name: &str) -> (r: Result<(), LauncherError>)
        ensures
            match first_invalid(colors(*self)) {
                None => r is Ok,
                Some(name) => r matches Err(LauncherError::Theme { theme, reason }) && theme@
                    == theme_name@ && reason@ == "missing or invalid color `"@ + name + "`"@,
            },
    {
        let mut pairs: Vec<(&str, &str)> = Vec::new();
        pairs.push(("window_background", self.window_background.as_str()));
        pairs.push(("panel_background", self.panel_background.as_str()));
        pairs.push(("search_background", self.search_background.as_str()));
        pairs.push(("search_text", self.search_text.as_str()));
        pairs.push(("list_item_background", self.list_item_background.as_str()));
        pairs.push(("list_item_hover", self.list_item_hover.as_str()));
        pairs.push(("list_item_selected", self.list_item_selected.as_str()));
        pairs.push(("text", self.text.as_str()));
        pairs.push(("muted_text", self.muted_text.as_str()));
        pairs.push(("accent", self.accent.as_str()));
        pairs.push(("warning", self.warning.as_str()));
        pairs.push(("error", self.error.as_str()));
        pairs.push(("border", self.border.as_str()));
        pairs.push(("favorite_active", self.favorite_active.as_str()));
        pairs.push(("favorite_inactive", self.favorite_inactive.as_str()));
        let ghost all = colors(*self);
        assert(pairs@.map_values(|p: (&str, &str)| (p.0@, p.1@)) =~= all);
        assert(all.skip(0) == all);
        let mut i: usize = 0;
        while i < pairs.len()
            invariant
                i <= pairs@.len(),
                all == colors(*self),
                all == pairs@.map_values(|p: (&str, &str)| (p.0@, p.1@)),
                first_invalid(all) == first_invalid(all.skip(i as int)),
            decreases pairs.len() - i,
        {
            assert(all.skip(i as int)[0] == all[i as int]);
            assert(all.skip(i as int).drop_first() == all.skip(i + 1));
            let (name, value) = pairs[i];
            assert(name@ == all[i as int].0 && value@ == all[i as int].1);
            if !is_hex_color(value) {
                let mut reason = owned("missing or invalid color `");
                reason.append(name);
                reason.append("`");
                assert(first_invalid(all.skip(i as int)) == Some(all[i as int].0));
                return Err(LauncherError::Theme { theme: owned(theme_name), reason });
            }
            i = i + 1;
        }
        assert(all.skip(pairs@.len() as int).len() == 0);
        Ok(())
    }

    /// The style sheet of this theme.
    pub fn css(&self) -> (css: String)
        ensures
            css@ == theme_css(*self),
    {
        let mut css = String::new();
        css.append(CSS_0);
        css.append(self.window_background.as_str());
        css.append(CSS_1);
        css.append(self.text.as_str());
        css.append(CSS_2);
        css.append(self.window_background.as_str());
        css.append(CSS_3);
        css.append(self.border.as_str());
        css.append(CSS_4);
        css.append(self.window_background.as_str());
        css.append(CSS_5);
        css.append(self.text.as_str());
        css.append(CSS_6);
        css.append(self.panel_background.as_str());
        css.append(CSS_7);
        css.append(self.panel_background.as_str());
        css.append(CSS_8);
        css.append(self.panel_background.as_str());
        css.append(CSS_9);
        css.append(self.border.as_str());
        css.append(CSS_10);
        css.append(self.search_background.as_str());
        css.append(CSS_11);
        css.append(self.search_text.as_str());
        css.append(CSS_12);
        css.append(self.border.as_str());
        css.append(CSS_13);
        css.append(self.search_text.as_str());
        css.append(CSS_14);
        css.append(self.list_item_background.as_str());
        css.append(CSS_15);
        css.append(self.text.as_str());
        css.append(CSS_16);
        css.append(self.list_item_hover.as_str());
        css.append(CSS_17);
        css.append(self.list_item_selected.as_str());
        css.append(CSS_18);
        css.append(self.text.as_str());
        css.append(CSS_19);
        css.append(self.search_background.as_str());
        css.append(CSS_20);
        css.append(self.text.as_str());
        css.append(CSS_21);
        css.append(self.border.as_str());
        css.append(CSS_22);
        css.append(self.text.as_str());
        css.append(CSS_23);
        css.append(self.list_item_hover.as_str());
        css.append(CSS_24);
        css.append(self.accent.as_str());
        css.append(CSS_25);
        css.append(self.list_item_selected.as_str());
        css.append(CSS_26);
        css.append(self.panel_background.as_str());
        css.append(CSS_27);
        css.append(self.muted_text.as_str());
        css.append(CSS_28);
        css.append(self.border.as_str());
        css.append(CSS_29);
        css.append(self.muted_text.as_str());
        css.append(CSS_30);
        css.append(self.accent.as_str());
        css.append(CSS_31);
        css.append(self.accent.as_str());
        css.append(CSS_32);
        css.append(self.accent.as_str());
        css.append(CSS_33);
        css.append(self.warning.as_str());
        css.append(CSS_34);
        css.append(self.warning.as_str());
        css.append(CSS_35);
        css.append(self.warning.as_str());
        css.append(CSS_36);
        css.append(self.error.as_str());
        css.append(CSS_37);
        css.append(self.error.as_str());
        css.append(CSS_38);
        css.append(self.error.as_str());
        css.append(CSS_39);
        css.append(self.accent.as_str());
        css.append(CSS_40);
        css.append(self.accent.as_str());
        css.append(CSS_41);
        css.append(self.accent.as_str());
        css.append(CSS_42);
        css.append(self.accent.as_str());
        css.append(CSS_43);
        css.append(self.accent.as_str());
        css.append(CSS_44);
        css.append(self.accent.as_str());
        css.append(CSS_45);
        css.append(self.search_background.as_str());
        css.append(CSS_46);
        css.append(self.border.as_str());
        css.append(CSS_47);
        css.append(self.panel_background.as_str());
        css.append(CSS_48);
        css.append(self.border.as_str());
        css.append(CSS_49);
        css.append(self.accent.as_str());
        css.append(CSS_50);
        css.append(self.window_background.as_str());
        css.append(CSS_51);
        css.append(self.muted_text.as_str());
        css.append(CSS_52);
        css.append(self.accent.as_str());
        css.append(CSS_53);
        css.append(self.favorite_active.as_str());
        css.append(CSS_54);
        css.append(self.favorite_inactive.as_str());
        css.append(CSS_55);
        css.append(self.error.as_str());
        css.append(CSS_56);
        css.append(self.warning.as_str());
        css.append(CSS_57);
        css
    }
}

// ---------------------------------------------------------------------------
// Where themes are found
// ---------------------------------------------------------------------------

/// The theme directory of a build tree: for `<repo>/target/<debug|release>/<exe>`
/// it is `<repo>/themes`.
pub open spec fn exe_theme_dir(exe: Seq<char>) -> Option<Seq<char>> {
    match parent_of(exe) {
        None => None,
        Some(profile_dir) => match parent_of(profile_dir) {
            None => None,
            Some(target_dir) => match file_name_of(target_dir) {
                None => None,
                Some(t) => if t != "target"@ {
                    None
                } else {
                    match file_name_of(profile_dir) {
                        None => None,
                        Some(profile) => if profile != "debug"@ && profile != "release"@ {
                            None
                        } else {
                            match parent_of(target_dir) {
                                None => None,
                                Some(repo) => Some(joined(repo, "themes"@)),
                            }
                        },
                    }
                },
            },
        },
    }
}

/// The theme directory of the build tree that holds the executable `exe`.
pub fn theme_dir_from_exe(exe: &str) -> (r: Option<String>)
    ensures
        match r {
            Some(d) => exe_theme_dir(exe@) == Some(d@),
            None => exe_theme_dir(exe@) is None,
        },
{
    let profile_dir = path_parent(exe)?;
    let target_dir = path_parent(profile_dir.as_str())?;
    let target_name = path_file_name(target_dir.as_str())?;
    if !eq_str(target_name.as_str(), "target") {
        return None;
    }
    let profile = path_file_name(profile_dir.as_str())?;
    if !eq_str(profile.as_str(), "debug") && !eq_str(profile.as_str(), "release") {
        return None;
    }
    let repo = path_parent(target_dir.as_str())?;
    Some(join_path(repo.as_str(), "themes"))
}

/// The directories searched for themes: the user's theme directory, the
/// build tree's theme directory, and `themes`.
pub open spec fn theme_search_dirs(
    config_home: Option<Seq<char>>,
    home: Option<Seq<char>>,
    exe: Option<Seq<char>>,
) -> Seq<Seq<char>> {
    let user: Seq<Seq<char>> = match config_home {
        Some(c) => seq![joined(joined(c, app_name()), "themes"@)],
        None => match home {
            Some(h) => seq![joined(joined(joined(h, ".config"@), app_name()), "themes"@)],
            None => seq![],
        },
    };
    let with_build: Seq<Seq<char>> = match exe {
        Some(e) => match exe_theme_dir(e) {
            Some(d) => with_unique(user, d),
            None => user,
        },
        None => user,
    };
    with_build.push("themes"@)
}

/// The directories searched for themes, given `XDG_CONFIG_HOME`, `HOME` and
/// the path of the running executable.
pub fn theme_dirs_from(config_home: Option<&str>, home: Option<&str>, exe: Option<&str>) -> (r:
    Vec<String>)
    ensures
        views(r@) == theme_search_dirs(
            opt_str_view(config_home),
            opt_str_view(home),
            opt_str_view(exe),
        ),
{
    let mut dirs: Vec<String> = Vec::new();
    match config_home {
        Some(c) => {
            let app = join_path(c, APP_NAME);
            dirs.push(join_path(app.as_str(), "themes"));
        },
        None => match home {
            Some(h) => {
                let config = join_path(h, ".config");
                let app = join_path(config.as_str(), APP_NAME);
                dirs.push(join_path(app.as_str(), "themes"));
            },
            None => {},
        },
    }
    assert(views(dirs@) =~= match opt_str_view(config_home) {
        Some(c) => seq![joined(joined(c, app_name()), "themes"@)],
        None => match opt_str_view(home) {
            Some(h) => seq![joined(joined(joined(h, ".config"@), app_name()), "themes"@)],
            None => Seq::<Seq<char>>::empty(),
        },
    });
    if let Some(e) = exe {
        if let Some(d) = theme_dir_from_exe(e) {
            push_unique(&mut dirs, d);
        }
    }
    let ghost before = views(dirs@);
    dirs.push(owned("themes"));
    assert(views(dirs@) == before.push("themes"@));
    dirs
}

/// The files tried for a theme, in order: `<name>.toml` in each search directory.
pub open spec fn theme_file_candidates(theme_name: Seq<char>, dirs: Seq<Seq<char>>) -> Seq<Seq<char>> {
    dirs.map_values(|d: Seq<char>| joined(d, theme_name + ".toml"@))
}

/// The files tried for a theme, in order.
pub fn theme_files(theme_name: &str, theme_dirs: &[String]) -> (r: Vec<String>)
    ensures
        views(r@) == theme_file_candidates(theme_name@, views(theme_dirs@)),
{
    let mut file_name = owned(theme_name);
    file_name.append(".toml");
    let ghost all = theme_file_candidates(theme_name@, views(theme_dirs@));
    let mut r: Vec<String> = Vec::new();
    let mut i: usize = 0;
    while i < theme_dirs.len()
        invariant
            i <= theme_dirs@.len(),
            file_name@ == theme_name@ + ".toml"@,
            all == theme_file_candidates(theme_name@, views(theme_dirs@)),
            views(r@) == all.take(i as int),
        decreases theme_dirs.len() - i,
    {
        let ghost before = views(r@);
        r.push(join_path(theme_dirs[i].as_str(), file_name.as_str()));
        assert(views(r@) == before.push(all[i as int]));
        assert(all.take(i + 1) == all.take(i as int).push(all[i as int]));
        i = i + 1;
    }
    assert(all.take(theme_dirs@.len() as int) == all);
    r
}

/// Which of the files tried for a theme is loaded: the first that exists
/// (`exists[i]` says whether the `i`th file exists), or, when none does, the
/// error for a theme that no search directory has.
pub fn first_theme_file(theme_name: &str, exists: &[bool]) -> (r: Result<usize, LauncherError>)
    ensures
        match r {
            Ok(i) => i < exists@.len() && exists@[i as int] && forall|j: int|
                0 <= j < i ==> !exists@[j],
            Err(e) => {
                &&& forall|j: int| 0 <= j < exists@.len() ==> !exists@[j]
                &&& e matches LauncherError::Theme { theme, reason }
                &&& theme@ == theme_name@
                &&& reason@ == "theme file was not found"@
            },
        },
{
    let mut i: usize = 0;
    while i < exists.len()
        invariant
            i <= exists@.len(),
            forall|j: int| 0 <= j < i ==> !exists@[j],
        decreases exists.len() - i,
    {
        if exists[i] {
            return Ok(i);
        }
        i = i + 1;
    }
    Err(LauncherError::Theme { theme: owned(theme_name), reason: owned("theme file was not found") })
}

} // verus!
