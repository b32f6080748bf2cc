use vstd::prelude::*;
use vstd::string::StringExecFns;
use crate::error::LauncherError;
use crate::exec::{
    is_exec_line_error, parse_exec, parse_exec_spec, CommandLine, ExecContext, Placeholders,
};
use crate::strmap::StringMap;
use crate::text::{
    chars_of, eq_chars, is_ws, lemma_split_char_two, lemma_trim_end_after,
    lemma_trim_of_trim_end, owned, split_char, split_on, string_of, trim, trim_bounds, trim_end,
    trim_start, trim_str, views,
};

verus! {

broadcast use vstd::string::group_string_axioms;

/// An application described by a desktop entry.
#[derive(Clone, Debug, PartialEq, Eq)]
pub struct DesktopApp {
    pub id: String,
    pub path: String,
    pub name: String,
    pub generic_name: Option<String>,
    pub comment: Option<String>,
    pub exec_line: String,
    pub command: CommandLine,
    pub icon: Option<String>,
    pub terminal: bool,
    pub categories: Vec<String>,
    pub keywords: Vec<String>,
}

// ---------------------------------------------------------------------------
// The key/value fields of the [Desktop Entry] group
// ---------------------------------------------------------------------------

/// The first position of `c` in `s`.
pub open spec fn first_index(s: Seq<char>, c: char) -> Option<int> {
    if exists|i: int| 0 <= i < s.len() && s[i] == c {
        Some(
            choose|i: int|
                0 <= i < s.len() && s[i] == c && forall|j: int| 0 <= j < i ==> s[j] != c,
        )
    } else {
        None
    }
}

/// The fields read so far, and whether the current group is `[Desktop Entry]`.
pub struct FieldsState {
    pub fields: Map<Seq<char>, Seq<char>>,
    pub in_entry: bool,
}

/// One line of a desktop file. Blank lines and comments are skipped, a group
/// header selects the group, and inside `[Desktop Entry]` a `key=value` line
/// whose key has no locale (`[`) sets the key to the trimmed value.
pub open spec fn line_step(st: FieldsState, raw: Seq<char>) -> FieldsState {
    let line = trim(raw);
    if line.len() == 0 || line[0] == '#' {
        st
    } else if line[0] == '[' && line.last() == ']' {
        FieldsState { fields: st.fields, in_entry: line == "[Desktop Entry]"@ }
    } else if !st.in_entry {
        st
    } else {
        match first_index(line, '=') {
            None => st,
            Some(k) => {
                let key = line.take(k);
                if key.contains('[') {
                    st
                } else {
                    FieldsState {
                        fields: st.fields.insert(key, trim(line.skip(k + 1))),
                        in_entry: st.in_entry,
                    }
                }
            },
        }
    }
}

pub open spec fn fields_run(lines: Seq<Seq<char>>) -> FieldsState
    decreases lines.len(),
{
    if lines.len() == 0 {
        FieldsState { fields: Map::empty(), in_entry: false }
    } else {
        line_step(fields_run(lines.drop_last()), lines.last())
    }
}

/// The fields of the `[Desktop Entry]` group of a desktop file. The file is
/// read line by line; as every line is trimmed and blank lines are skipped,
/// splitting at `\n` reads the same lines as `str::lines`.
pub open spec fn desktop_fields(contents: Seq<char>) -> Map<Seq<char>, Seq<char>> {
    fields_run(split_char(contents, '\n')).fields
}

/// Inside `[Desktop Entry]`, a `key=value` line whose key has no `=` and no
/// locale `[` sets the key to the trimmed value, whatever `=` the value holds:
/// the line is split at its first `=`.
pub proof fn law_key_value_line(st: FieldsState, key: Seq<char>, value: Seq<char>)
    requires
        st.in_entry,
        key.len() > 0,
        !is_ws(key[0]),
        key[0] != '#',
        !key.contains('='),
        !key.contains('['),
    ensures
        line_step(st, key + "="@ + value) == (FieldsState {
            fields: st.fields.insert(key, trim(value)),
            in_entry: true,
        }),
{
    reveal_strlit("=");
    let x = key + "="@;
    let raw = x + value;
    assert(raw[0] == key[0]);
    assert(trim_start(raw) == raw);
    assert(x.last() == '=');
    lemma_trim_end_after(x, value);
    let line = trim(raw);
    assert(line == x + trim_end(value));
    let k = key.len() as int;
    assert(line[k] == '=');
    assert(line[0] == key[0]);
    assert(key[0] != '[') by {
        if key[0] == '[' {
            assert(key.contains('['));
        }
    }
    assert(forall|j: int| 0 <= j < k ==> line[j] == key[j]);
    assert(forall|j: int| 0 <= j < k ==> line[j] != '=') by {
        assert forall|j: int| 0 <= j < k implies line[j] != '=' by {
            if line[j] == '=' {
                assert(key[j] == '=');
                assert(key.contains('='));
            }
        }
    }
    assert(0 <= k < line.len() && line[k] == '=' && forall|j: int| 0 <= j < k ==> line[j] != '=');
    let c = choose|i: int|
        0 <= i < line.len() && line[i] == '=' && forall|j: int| 0 <= j < i ==> line[j] != '=';
    if c > k {
        assert(line[k] != '=');
    }
    assert(c == k);
    assert(first_index(line, '=') == Some(k));
    assert(line.take(k) =~= key);
    assert(line.skip(k + 1) =~= trim_end(value));
    lemma_trim_of_trim_end(value);
}

/// A file that is the `[Desktop Entry]` header and one `key=value` line reads
/// as that one field, with the trimmed value, whatever `=` the value holds.
pub proof fn law_single_field_file(key: Seq<char>, value: Seq<char>)
    requires
        key.len() > 0,
        !is_ws(key[0]),
        key[0] != '#',
        !key.contains('='),
        !key.contains('['),
        !key.contains('\n'),
        !value.contains('\n'),
    ensures
        desktop_fields("[Desktop Entry]"@ + seq!['\n'] + key + "="@ + value) == map![
            key => trim(value),
        ],
{
    reveal_strlit("=");
    reveal_strlit("[Desktop Entry]");
    let header = "[Desktop Entry]"@;
    let line = key + "="@ + value;
    assert(!header.contains('\n')) by {
        if header.contains('\n') {
            let i = choose|i: int| 0 <= i < header.len() && header[i] == '\n';
            assert(header[i] != '\n');
        }
    }
    assert(!line.contains('\n')) by {
        if line.contains('\n') {
            let i = choose|i: int| 0 <= i < line.len() && line[i] == '\n';
            if i < key.len() {
                assert(key[i] == '\n');
            } else if i == key.len() {
                assert(line[i] == '=');
            } else {
                assert(value[i - key.len() - 1] == '\n');
            }
        }
    }
    lemma_split_char_two(header, line, '\n');
    assert(header + seq!['\n'] + key + "="@ + value =~= header + seq!['\n'] + line);
    let lines = seq![header, line];
    assert(lines.drop_last() =~= seq![header]);
    assert(seq![header].drop_last() =~= Seq::<Seq<char>>::empty());
    assert(trim_start(header) == header);
    assert(trim_end(header) == header);
    let st0 = FieldsState { fields: Map::empty(), in_entry: false };
    let st1 = line_step(st0, header);
    assert(st1 == (FieldsState { fields: Map::<Seq<char>, Seq<char>>::empty(), in_entry: true }));
    assert(fields_run(Seq::<Seq<char>>::empty()) == st0);
    assert(fields_run(seq![header]) == st1);
    assert(lines.last() == line);
    assert(fields_run(lines) == line_step(st1, line));
    law_key_value_line(st1, key, value);
    assert(split_char("[Desktop Entry]"@ + seq!['\n'] + key + "="@ + value, '\n') == lines);
    assert(Map::<Seq<char>, Seq<char>>::empty().insert(key, trim(value)) =~= map![key => trim(value)]);
}

#[verifier::loop_isolation(false)]
fn apply_line(fields: &mut StringMap<String>, in_entry: bool, raw: &str) -> (next: bool)
    ensures
        line_step(FieldsState { fields: old(fields)@, in_entry }, raw@) == (FieldsState {
            fields: final(fields)@,
            in_entry: next,
        }),
{
    let trimmed = trim_str(raw);
    let line = chars_of(trimmed.as_str());
    let n = line.len();
    if n == 0 || line[0] == '#' {
        return in_entry;
    }
    if line[0] == '[' && line[n - 1] == ']' {
        let header = chars_of("[Desktop Entry]");
        return eq_chars(&line, &header);
    }
    if !in_entry {
        return in_entry;
    }
    let mut k: usize = 0;
    while k < n && line[k] != '='
        invariant
            n == line@.len(),
            k <= n,
            forall|j: int| 0 <= j < k ==> line@[j] != '=',
        decreases n - k,
    {
        k = k + 1;
    }
    if k == n {
        assert(!(exists|i: int| 0 <= i < line@.len() && line@[i] == '='));
        return in_entry;
    }
    proof {
        let c = choose|i: int|
            0 <= i < line@.len() && line@[i] == '=' && forall|j: int| 0 <= j < i ==> line@[j]
                != '=';
        assert(line@[k as int] == '=');
        if c < k {
            assert(line@[c] != '=');
        }
        if c > k {
            assert(line@[k as int] != '=');
        }
        assert(first_index(line@, '=') == Some(k as int));
    }
    let mut j: usize = 0;
    while j < k
        invariant
            k < n == line@.len(),
            j <= k,
            forall|m: int| 0 <= m < j ==> line@[m] != '[',
        decreases k - j,
    {
        if line[j] == '[' {
            assert(line@.take(k as int)[j as int] == '[');
            return in_entry;
        }
        j = j + 1;
    }
    assert(!line@.take(k as int).contains('['));
    let key = string_of(&line, 0, k);
    let (a, b) = trim_bounds(&line, k + 1, n);
    let value = string_of(&line, a, b);
    assert(line@.subrange(0, k as int) == line@.take(k as int));
    assert(line@.subrange(k + 1, n as int) == line@.skip(k + 1));
    fields.insert(key, value);
    in_entry
}

/// The fields of the `[Desktop Entry]` group of a desktop file.
fn parse_desktop_fields(contents: &str) -> (fields: StringMap<String>)
    ensures
        fields@ == desktop_fields(contents@),
{
    let chars = chars_of(contents);
    let lines = split_on(&chars, '\n');
    let mut fields: StringMap<String> = StringMap::new();
    let mut in_entry = false;
    let mut i: usize = 0;
    while i < lines.len()
        invariant
            i <= lines@.len(),
            views(lines@) == split_char(contents@, '\n'),
            fields_run(views(lines@).take(i as int)) == (FieldsState {
                fields: fields@,
                in_entry,
            }),
        decreases lines.len() - i,
    {
        assert(views(lines@).take(i + 1).drop_last() == views(lines@).take(i as int));
        in_entry = apply_line(&mut fields, in_entry, lines[i].as_str());
        i = i + 1;
    }
    assert(views(lines@).take(lines@.len() as int) == views(lines@));
    fields
}

// ---------------------------------------------------------------------------
// Reading single fields
// ---------------------------------------------------------------------------

/// The value of `key`, if the entry sets it.
pub open spec fn field(m: Map<Seq<char>, Seq<char>>, key: Seq<char>) -> Option<Seq<char>> {
    if m.contains_key(key) {
        Some(m[key])
    } else {
        None
    }
}

/// The value of `key`, if the entry sets it to a non-empty value.
pub open spec fn present(m: Map<Seq<char>, Seq<char>>, key: Seq<char>) -> Option<Seq<char>> {
    match field(m, key) {
        Some(v) => if v.len() > 0 {
            Some(v)
        } else {
            None
        },
        None => None,
    }
}

/// `s` is `true` in any mix of ASCII cases.
pub open spec fn is_true_word(s: Seq<char>) -> bool {
    &&& s.len() == 4
    &&& (s[0] == 't' || s[0] == 'T')
    &&& (s[1] == 'r' || s[1] == 'R')
    &&& (s[2] == 'u' || s[2] == 'U')
    &&& (s[3] == 'e' || s[3] == 'E')
}

/// The boolean field `key` is set to `true`.
pub open spec fn flag(m: Map<Seq<char>, Seq<char>>, key: Seq<char>) -> bool {
    field(m, key) matches Some(v) && is_true_word(v)
}

/// The trimmed value of a required field, if it is set and not blank.
pub open spec fn required(m: Map<Seq<char>, Seq<char>>, key: Seq<char>) -> Option<Seq<char>> {
    match field(m, key) {
        Some(v) => if trim(v).len() > 0 {
            Some(trim(v))
        } else {
            None
        },
        None => None,
    }
}

/// The trimmed pieces of `s` between semicolons, without the blank ones.
pub open spec fn list_items(s: Seq<char>) -> Seq<Seq<char>> {
    crate::exec::non_empty(split_char(s, ';').map_values(|p: Seq<char>| trim(p)))
}

/// The items of a `;`-separated list field.
pub open spec fn list_field(m: Map<Seq<char>, Seq<char>>, key: Seq<char>) -> Seq<Seq<char>> {
    match field(m, key) {
        Some(v) => list_items(v),
        None => seq![],
    }
}

pub open spec fn opt_view(o: Option<String>) -> Option<Seq<char>> {
    match o {
        Some(s) => Some(s@),
        None => None,
    }
}

fn true_word(s: &str) -> (r: bool)
    ensures
        r == is_true_word(s@),
{
    let v = chars_of(s);
    v.len() == 4 && (v[0] == 't' || v[0] == 'T') && (v[1] == 'r' || v[1] == 'R') && (v[2] == 'u'
        || v[2] == 'U') && (v[3] == 'e' || v[3] == 'E')
}

fn bool_field(value: Option<&String>) -> (r: bool)
    ensures
        r == (value matches Some(v) && is_true_word(v@)),
{
    match value {
        Some(v) => true_word(v.as_str()),
        None => false,
    }
}

fn non_empty_field(value: Option<&String>) -> (r: Option<String>)
    ensures
        opt_view(r) == match value {
            Some(v) => if v@.len() > 0 {
                Some(v@)
            } else {
                None
            },
            None => None,
        },
{
    match value {
        Some(v) => if v.as_str().is_empty() {
            None
        } else {
            Some(v.clone())
        },
        None => None,
    }
}

/// `e` is the error for a desktop file at `path` that lacks the field `key`.
pub open spec fn is_missing_field(e: LauncherError, path: Seq<char>, key: Seq<char>) -> bool {
    e matches LauncherError::DesktopEntry { path: p, reason } && p@ == path && reason@
        == "missing required `"@ + key + "` field"@
}

fn required_field(fields: &StringMap<String>, key: &str, path: &str) -> (r: Result<
    String,
    LauncherError,
>)
    ensures
        match required(fields@, key@) {
            Some(v) => r matches Ok(s) && s@ == v,
            None => r matches Err(e) && is_missing_field(e, path@, key@),
        },
{
    if let Some(value) = fields.get(key) {
        let trimmed = trim_str(value.as_str());
        if !trimmed.as_str().is_empty() {
            return Ok(trimmed);
        }
    }
    let mut reason = owned("missing required `");
    reason.append(key);
    reason.append("` field");
    Err(LauncherError::DesktopEntry { path: owned(path), reason })
}

fn split_list(value: Option<&String>) -> (r: Vec<String>)
    ensures
        views(r@) == match value {
            Some(v) => list_items(v@),
            None => seq![],
        },
{
    match value {
        None => Vec::new(),
        Some(v) => {
            let chars = chars_of(v.as_str());
            let pieces = split_on(&chars, ';');
            let ghost trimmed = split_char(v@, ';').map_values(|p: Seq<char>| trim(p));
            let mut items: Vec<String> = Vec::new();
            let mut i: usize = 0;
            while i < pieces.len()
                invariant
                    i <= pieces@.len(),
                    views(pieces@) == split_char(v@, ';'),
                    trimmed == split_char(v@, ';').map_values(|p: Seq<char>| trim(p)),
                    views(items@) == crate::exec::non_empty(trimmed.take(i as int)),
                decreases pieces.len() - i,
            {
                assert(trimmed.take(i + 1).drop_last() == trimmed.take(i as int));
                let part = trim_str(pieces[i].as_str());
                assert(part@ == trimmed[i as int]);
                if !part.as_str().is_empty() {
                    let ghost before = views(items@);
                    items.push(part);
                    assert(views(items@) == before.push(trimmed[i as int]));
                }
                i = i + 1;
            }
            assert(trimmed.take(pieces@.len() as int) == trimmed);
            items
        },
    }
}

// ---------------------------------------------------------------------------
// Parsing a desktop entry
// ---------------------------------------------------------------------------

/// The entry is marked `NoDisplay` or `Hidden`.
pub open spec fn entry_hidden(contents: Seq<char>) -> bool {
    let m = desktop_fields(contents);
    flag(m, "NoDisplay"@) || flag(m, "Hidden"@)
}

/// A desktop file with these contents, found at `path`, describes an
/// application to show: it is not hidden, names its application and
/// command, and its `Exec` line parses.
#[verifier::opaque]
pub open spec fn entry_shown(path: Seq<char>, contents: Seq<char>) -> bool {
    let m = desktop_fields(contents);
    &&& !(flag(m, "NoDisplay"@) || flag(m, "Hidden"@))
    &&& required(m, "Name"@) is Some
    &&& required(m, "Exec"@) is Some
    &&& parse_exec_spec(
        required(m, "Exec"@)->0,
        Placeholders {
            name: required(m, "Name"@)->0,
            icon: match present(m, "Icon"@) {
                Some(i) => i,
                None => seq![],
            },
            path,
        },
    ) is Ok
}

/// `r` is what a desktop file with the given id, path and contents parses to:
/// nothing when the entry is hidden, an error when `Name` or `Exec` is missing
/// or the `Exec` line does not parse, and the application otherwise.
#[verifier::opaque]
pub open spec fn entry_parsed(
    r: Result<Option<DesktopApp>, LauncherError>,
    id: Seq<char>,
    path: Seq<char>,
    contents: Seq<char>,
) -> bool {
    let m = desktop_fields(contents);
    if flag(m, "NoDisplay"@) || flag(m, "Hidden"@) {
        r matches Ok(None)
    } else {
        match required(m, "Name"@) {
            None => r matches Err(e) && is_missing_field(e, path, "Name"@),
            Some(name) => match required(m, "Exec"@) {
                None => r matches Err(e) && is_missing_field(e, path, "Exec"@),
                Some(exec) => {
                    let icon = present(m, "Icon"@);
                    let context = Placeholders {
                        name,
                        icon: match icon {
                            Some(i) => i,
                            None => seq![],
                        },
                        path,
                    };
                    match parse_exec_spec(exec, context) {
                        Err((line, reason)) => r matches Err(e) && is_exec_line_error(
                            e,
                            line,
                            reason,
                        ),
                        Ok((program, args)) => r matches Ok(Some(app)) && {
                            &&& app.id@ == id
                            &&& app.path@ == path
                            &&& app.name@ == name
                            &&& app.exec_line@ == exec
                            &&& app.command.program@ == program
                            &&& views(app.command.args@) == args
                            &&& opt_view(app.icon) == icon
                            &&& opt_view(app.generic_name) == present(m, "GenericName"@)
                            &&& opt_view(app.comment) == present(m, "Comment"@)
                            &&& app.terminal == flag(m, "Terminal"@)
                            &&& views(app.categories@) == list_field(m, "Categories"@)
                            &&& views(app.keywords@) == list_field(m, "Keywords"@)
                        },
                    }
                },
            },
        }
    }
}

/// Reads a desktop entry. Returns `None` for entries marked `NoDisplay` or
/// `Hidden`.
pub fn parse_desktop_entry(id: String, path: String, contents: &str) -> (r: Result<
    Option<DesktopApp>,
    LauncherError,
>)
    ensures
        entry_parsed(r, id@, path@, contents@),
        (r matches Ok(Some(_))) == entry_shown(path@, contents@),
        (r is Err) == (!entry_hidden(contents@) && !entry_shown(path@, contents@)),
        r matches Ok(Some(app)) ==> app.id@ == id@,
{
    reveal(entry_parsed);
    reveal(entry_shown);
    let fields = parse_desktop_fields(contents);

    if bool_field(fields.get("NoDisplay")) || bool_field(fields.get("Hidden")) {
        return Ok(None);
    }

    let name = required_field(&fields, "Name", path.as_str())?;
    let exec_line = required_field(&fields, "Exec", path.as_str())?;
    let icon = non_empty_field(fields.get("Icon"));
    let command = {
        let context = ExecContext {
            name: name.as_str(),
            icon: match &icon {
                Some(i) => Some(i.as_str()),
                None => None,
            },
            desktop_path: path.as_str(),
        };
        parse_exec(exec_line.as_str(), &context)?
    };
    let generic_name = non_empty_field(fields.get("GenericName"));
    let comment = non_empty_field(fields.get("Comment"));
    let terminal = bool_field(fields.get("Terminal"));
    let categories = split_list(fields.get("Categories"));
    let keywords = split_list(fields.get("Keywords"));

    Ok(
        Some(
            DesktopApp {
                id,
                path,
                name,
                generic_name,
                comment,
                exec_line,
                command,
                icon,
                terminal,
                categories,
                keywords,
            },
        ),
    )
}

} // verus!
