use vstd::prelude::*;
use crate::desktop::{entry_hidden, entry_parsed, entry_shown, parse_desktop_entry, DesktopApp};
use crate::error::LauncherError;
use crate::order::{chars_less, lemma_seq_less_asymmetric, lemma_seq_less_irreflexive,
    lemma_seq_less_total, lemma_seq_less_transitive, seq_less};
use crate::paths::{
    file_name_of, join_path, joined, opt_str_view, path_file_name, push_unique, strip_path_prefix,
    stripped_prefix, with_unique,
};
use crate::text::{chars_of, eq_chars, owned, push_char, views};

verus! {

broadcast use vstd::string::group_string_axioms;

/// A desktop file found while scanning an application directory: the
/// directory it was found under, its path, and its contents (`None` when it
/// could not be read).
#[derive(Clone, Debug, PartialEq, Eq)]
pub struct DesktopFile {
    pub dir: String,
    pub path: String,
    pub contents: Option<String>,
}

/// The desktop file id of a scanned file.
pub open spec fn file_id(f: DesktopFile) -> Seq<char> {
    desktop_id(f.dir@, f.path@)
}

/// The scanned file was read and describes an application to show.
pub open spec fn file_shown(f: DesktopFile) -> bool {
    f.contents matches Some(c) && entry_shown(f.path@, c@)
}

/// The scanned file was read, is not hidden, and is not a valid entry: it is
/// skipped with an error.
pub open spec fn file_rejected(f: DesktopFile) -> bool {
    f.contents matches Some(c) && !entry_hidden(c@) && !entry_shown(f.path@, c@)
}

/// `errors` pairs, in the order of the files, the position of each rejected
/// file among `files[..upto]` with the error that parsing it gives.
pub open spec fn rejections(errors: Seq<(usize, LauncherError)>, files: Seq<DesktopFile>, upto: int) -> bool {
    &&& forall|k: int|
        0 <= k < errors.len() ==> {
            let i = (#[trigger] errors[k]).0 as int;
            &&& 0 <= i < upto <= files.len()
            &&& file_rejected(files[i])
            &&& files[i].contents matches Some(c) && entry_parsed(
                Err(errors[k].1),
                file_id(files[i]),
                files[i].path@,
                c@,
            )
        }
    &&& forall|a: int, b: int| 0 <= a < b < errors.len() ==> errors[a].0 < errors[b].0
    &&& forall|i: int|
        0 <= i < upto && #[trigger] file_rejected(files[i]) ==> exists|k: int|
            0 <= k < errors.len() && #[trigger] errors[k].0 == i
}

/// `files[i]` is the first file among `files[..upto]` that shows an
/// application with its id, and `app` is what it parses to.
pub open spec fn first_with_id(files: Seq<DesktopFile>, upto: int, i: int, app: DesktopApp) -> bool {
    &&& 0 <= i < upto <= files.len()
    &&& file_shown(files[i])
    &&& file_id(files[i]) == app.id@
    &&& forall|j: int| 0 <= j < i && #[trigger] file_shown(files[j]) ==> file_id(files[j]) != app.id@
    &&& files[i].contents matches Some(c) && entry_parsed(
        Ok(Some(app)),
        file_id(files[i]),
        files[i].path@,
        c@,
    )
}

/// Some file among `files[..upto]` is the first to show `app`.
pub open spec fn found_first(files: Seq<DesktopFile>, upto: int, app: DesktopApp) -> bool {
    exists|i: int| #[trigger] first_with_id(files, upto, i, app)
}

/// Some application in `apps` has the id `id`.
pub open spec fn has_id(apps: Seq<DesktopApp>, id: Seq<char>) -> bool {
    exists|k: int| 0 <= k < apps.len() && #[trigger] apps[k].id@ == id
}

/// The ids of `apps` are in strictly increasing order.
pub open spec fn ids_ascending(apps: Seq<DesktopApp>) -> bool {
    forall|a: int, b: int| 0 <= a < b < apps.len() ==> seq_less(apps[a].id@, apps[b].id@)
}

/// `apps` holds, ordered by id, one application for each id that the files
/// `files[..upto]` show: the one of the first file that shows it.
pub open spec fn discovered(apps: Seq<DesktopApp>, files: Seq<DesktopFile>, upto: int) -> bool {
    &&& ids_ascending(apps)
    &&& forall|k: int| 0 <= k < apps.len() ==> found_first(files, upto, #[trigger] apps[k])
    &&& forall|i: int|
        0 <= i < upto && #[trigger] file_shown(files[i]) ==> has_id(apps, file_id(files[i]))
}

/// No two discovered applications share an id.
pub proof fn law_discovered_ids_unique(apps: Seq<DesktopApp>)
    requires
        ids_ascending(apps),
    ensures
        forall|a: int, b: int|
            0 <= a < apps.len() && 0 <= b < apps.len() && a != b ==> apps[a].id@ != apps[b].id@,
{
    assert forall|a: int, b: int|
        0 <= a < apps.len() && 0 <= b < apps.len() && a != b implies apps[a].id@ != apps[b].id@ by {
        lemma_seq_less_irreflexive(apps[a].id@);
    }
}

proof fn lemma_key_absent(apps: Seq<DesktopApp>, key: Seq<char>, k: int)
    requires
        0 <= k <= apps.len(),
        ids_ascending(apps),
        forall|m: int| 0 <= m < k ==> seq_less(#[trigger] apps[m].id@, key),
        k < apps.len() ==> !seq_less(apps[k].id@, key) && apps[k].id@ != key,
    ensures
        !has_id(apps, key),
        forall|m: int| k <= m < apps.len() ==> seq_less(key, #[trigger] apps[m].id@),
{
    if k < apps.len() {
        lemma_seq_less_total(apps[k].id@, key);
    }
    assert forall|m: int| k <= m < apps.len() implies seq_less(key, #[trigger] apps[m].id@) by {
        if m > k {
            lemma_seq_less_transitive(key, apps[k].id@, apps[m].id@);
        }
    }
    if has_id(apps, key) {
        let m = choose|m: int| 0 <= m < apps.len() && #[trigger] apps[m].id@ == key;
        lemma_seq_less_irreflexive(key);
    }
}

proof fn lemma_found_first_grows(files: Seq<DesktopFile>, upto: int, app: DesktopApp)
    requires
        upto < files.len(),
        found_first(files, upto, app),
    ensures
        found_first(files, upto + 1, app),
{
    let j = choose|j: int| #[trigger] first_with_id(files, upto, j, app);
    assert(first_with_id(files, upto + 1, j, app));
}

proof fn lemma_unchanged(apps: Seq<DesktopApp>, files: Seq<DesktopFile>, i: int)
    requires
        0 <= i < files.len(),
        discovered(apps, files, i),
        file_shown(files[i]) ==> has_id(apps, file_id(files[i])),
    ensures
        discovered(apps, files, i + 1),
{
    assert forall|m: int| 0 <= m < apps.len() implies found_first(files, i + 1, #[trigger] apps[m]) by {
        lemma_found_first_grows(files, i, apps[m]);
    }
    assert forall|j: int| 0 <= j < i + 1 && #[trigger] file_shown(files[j]) implies has_id(
        apps,
        file_id(files[j]),
    ) by {}
}

proof fn lemma_insert_sorted(old_apps: Seq<DesktopApp>, new_app: DesktopApp, k: int)
    requires
        0 <= k <= old_apps.len(),
        ids_ascending(old_apps),
        forall|m: int| 0 <= m < k ==> seq_less(#[trigger] old_apps[m].id@, new_app.id@),
        forall|m: int| k <= m < old_apps.len() ==> seq_less(new_app.id@, #[trigger] old_apps[m].id@),
    ensures
        ids_ascending(old_apps.insert(k, new_app)),
{
    let na = old_apps.insert(k, new_app);
    assert forall|a: int, b: int| 0 <= a < b < na.len() implies seq_less(na[a].id@, na[b].id@) by {
        if b < k {
            assert(na[a] == old_apps[a] && na[b] == old_apps[b]);
        } else if a > k {
            assert(na[a] == old_apps[a - 1] && na[b] == old_apps[b - 1]);
        } else if a == k {
            assert(na[b] == old_apps[b - 1]);
        } else if b == k {
            assert(na[a] == old_apps[a]);
        } else {
            assert(na[a] == old_apps[a] && na[b] == old_apps[b - 1]);
        }
    }
}

proof fn lemma_insert_found(
    old_apps: Seq<DesktopApp>,
    new_app: DesktopApp,
    k: int,
    files: Seq<DesktopFile>,
    i: int,
)
    requires
        0 <= i < files.len(),
        0 <= k <= old_apps.len(),
        forall|m: int| 0 <= m < old_apps.len() ==> found_first(files, i, #[trigger] old_apps[m]),
        first_with_id(files, i + 1, i, new_app),
    ensures
        forall|m: int|
            0 <= m < old_apps.insert(k, new_app).len() ==> found_first(
                files,
                i + 1,
                #[trigger] old_apps.insert(k, new_app)[m],
            ),
{
    let na = old_apps.insert(k, new_app);
    assert forall|m: int| 0 <= m < na.len() implies found_first(files, i + 1, #[trigger] na[m]) by {
        if m == k {
            assert(na[m] == new_app);
        } else {
            let om = if m < k {
                m
            } else {
                m - 1
            };
            assert(na[m] == old_apps[om]);
            lemma_found_first_grows(files, i, old_apps[om]);
        }
    }
}

proof fn lemma_insert_covers(
    old_apps: Seq<DesktopApp>,
    new_app: DesktopApp,
    k: int,
    files: Seq<DesktopFile>,
    i: int,
)
    requires
        0 <= i < files.len(),
        0 <= k <= old_apps.len(),
        forall|j: int|
            0 <= j < i && #[trigger] file_shown(files[j]) ==> has_id(old_apps, file_id(files[j])),
        file_id(files[i]) == new_app.id@,
    ensures
        forall|j: int|
            0 <= j < i + 1 && #[trigger] file_shown(files[j]) ==> has_id(
                old_apps.insert(k, new_app),
                file_id(files[j]),
            ),
{
    let na = old_apps.insert(k, new_app);
    assert forall|j: int| 0 <= j < i + 1 && #[trigger] file_shown(files[j]) implies has_id(
        na,
        file_id(files[j]),
    ) by {
        if j == i {
            assert(na[k].id@ == file_id(files[j]));
        } else {
            let m = choose|m: int|
                0 <= m < old_apps.len() && #[trigger] old_apps[m].id@ == file_id(files[j]);
            if m < k {
                assert(na[m] == old_apps[m]);
            } else {
                assert(na[m + 1] == old_apps[m]);
            }
        }
    }
}

proof fn lemma_new_is_first(
    old_apps: Seq<DesktopApp>,
    new_app: DesktopApp,
    files: Seq<DesktopFile>,
    i: int,
)
    requires
        0 <= i < files.len(),
        !has_id(old_apps, new_app.id@),
        forall|j: int|
            0 <= j < i && #[trigger] file_shown(files[j]) ==> has_id(old_apps, file_id(files[j])),
        file_shown(files[i]),
        file_id(files[i]) == new_app.id@,
        files[i].contents matches Some(c) && entry_parsed(
            Ok(Some(new_app)),
            file_id(files[i]),
            files[i].path@,
            c@,
        ),
    ensures
        first_with_id(files, i + 1, i, new_app),
{
}

fn discover_file(apps: &mut Vec<DesktopApp>, files: &[DesktopFile], i: usize) -> (r: Option<
    LauncherError,
>)
    requires
        i < files@.len(),
        discovered(old(apps)@, files@, i as int),
    ensures
        discovered(final(apps)@, files@, i + 1),
        match r {
            Some(e) => {
                &&& file_rejected(files@[i as int])
                &&& files@[i as int].contents matches Some(c)
                &&& entry_parsed(Err(e), file_id(files@[i as int]), files@[i as int].path@, c@)
            },
            None => !file_rejected(files@[i as int]),
        },
{
    let f = &files[i];
    let id = desktop_file_id(f.dir.as_str(), f.path.as_str());
    let contents = match &f.contents {
        Some(c) => c,
        None => {
            proof {
                lemma_unchanged(apps@, files@, i as int);
            }
            return None;
        },
    };
    let parsed = parse_desktop_entry(id.clone(), f.path.clone(), contents.as_str());
    let app = match parsed {
        Ok(Some(app)) => app,
        Ok(None) => {
            proof {
                lemma_unchanged(apps@, files@, i as int);
            }
            return None;
        },
        Err(e) => {
            proof {
                lemma_unchanged(apps@, files@, i as int);
            }
            return Some(e);
        },
    };
    let key = chars_of(app.id.as_str());
    let mut k: usize = 0;
    let mut stop = false;
    while k < apps.len() && !stop
        invariant
            k <= apps@.len(),
            key@ == app.id@,
            forall|m: int| 0 <= m < k ==> seq_less(#[trigger] apps@[m].id@, key@),
            stop ==> k < apps@.len() && !seq_less(apps@[k as int].id@, key@),
        decreases apps.len() - k + if stop {
            0int
        } else {
            1int
        },
    {
        let other = chars_of(apps[k].id.as_str());
        if chars_less(&other, &key) {
            k = k + 1;
        } else {
            stop = true;
        }
    }
    if k < apps.len() && eq_chars(&chars_of(apps[k].id.as_str()), &key) {
        proof {
            assert(apps@[k as int].id@ == file_id(files@[i as int]));
            lemma_unchanged(apps@, files@, i as int);
        }
        return None;
    }
    let ghost old_apps = apps@;
    let ghost new_app = app;
    proof {
        lemma_key_absent(old_apps, key@, k as int);
        lemma_new_is_first(old_apps, new_app, files@, i as int);
        lemma_insert_sorted(old_apps, new_app, k as int);
        lemma_insert_found(old_apps, new_app, k as int, files@, i as int);
        lemma_insert_covers(old_apps, new_app, k as int, files@, i as int);
    }
    apps.insert(k, app);
    None
}

/// The applications described by the scanned desktop files, one per desktop
/// id (the first file that shows it wins), ordered by id. Files that could
/// not be read, hidden entries and invalid entries are skipped.
pub fn discover_apps_from_dirs(files: &[DesktopFile]) -> (apps: Vec<DesktopApp>)
    ensures
        discovered(apps@, files@, files@.len() as int),
{
    let (apps, _) = discover_apps_with_errors(files);
    apps
}

/// What `discover_apps_from_dirs` finds, together with the files it skips
/// as invalid: the position of each such file and the error that parsing it
/// gives, in the order of the files.
pub fn discover_apps_with_errors(files: &[DesktopFile]) -> (r: (Vec<DesktopApp>, Vec<
    (usize, LauncherError),
>))
    ensures
        discovered(r.0@, files@, files@.len() as int),
        rejections(r.1@, files@, files@.len() as int),
{
    let mut apps: Vec<DesktopApp> = Vec::new();
    let mut errors: Vec<(usize, LauncherError)> = Vec::new();
    let mut i: usize = 0;
    while i < files.len()
        invariant
            i <= files@.len(),
            discovered(apps@, files@, i as int),
            rejections(errors@, files@, i as int),
            forall|k: int| 0 <= k < errors@.len() ==> (#[trigger] errors@[k]).0 < i,
        decreases files.len() - i,
    {
        let rejected = discover_file(&mut apps, files, i);
        if let Some(e) = rejected {
            let ghost before = errors@;
            errors.push((i, e));
            proof {
                assert(errors@ == before.push((i, e)));
                assert forall|j: int|
                    0 <= j < i + 1 && #[trigger] file_rejected(files@[j]) implies exists|k: int|
                    0 <= k < errors@.len() && #[trigger] errors@[k].0 == j by {
                    if j < i {
                        let k = choose|k: int| 0 <= k < before.len() && #[trigger] before[k].0 == j;
                        assert(errors@[k] == before[k]);
                    } else {
                        assert(errors@[before.len() as int].0 == j);
                    }
                }
            }
        }
        i = i + 1;
    }
    (apps, errors)
}

/// The directories searched for desktop files.
pub open spec fn application_search_dirs(
    data_home: Option<Seq<char>>,
    home: Option<Seq<char>>,
    data_dirs: Option<Seq<Seq<char>>>,
) -> Seq<Seq<char>> {
    let first: Seq<Seq<char>> = match data_home {
        Some(d) => seq![joined(d, "applications"@)],
        None => seq![],
    };
    let second: Seq<Seq<char>> = match home {
        Some(h) => first.push(joined(h, ".local/share/applications"@)),
        None => first,
    };
    let third: Seq<Seq<char>> = match data_dirs {
        Some(dirs) => second + dirs.map_values(|d: Seq<char>| joined(d, "applications"@)),
        None => second + seq!["/usr/local/share/applications"@, "/usr/share/applications"@],
    };
    with_unique(
        with_unique(third, "/usr/local/share/applications"@),
        "/usr/share/applications"@,
    )
}

/// The directories searched for desktop files, given `XDG_DATA_HOME`, `HOME`
/// and the entries of `XDG_DATA_DIRS`.
pub fn application_dirs_from(
    data_home: Option<&str>,
    home: Option<&str>,
    data_dirs: Option<&[String]>,
) -> (r: Vec<String>)
    ensures
        views(r@) == application_search_dirs(
            opt_str_view(data_home),
            opt_str_view(home),
            match data_dirs {
                Some(d) => Some(views(d@)),
                None => None,
            },
        ),
{
    let mut dirs: Vec<String> = Vec::new();
    let ghost mut expected: Seq<Seq<char>> = seq![];
    if let Some(d) = data_home {
        dirs.push(join_path(d, "applications"));
        proof {
            expected = seq![joined(d@, "applications"@)];
        }
    }
    assert(views(dirs@) =~= expected);
    if let Some(h) = home {
        dirs.push(join_path(h, ".local/share/applications"));
        proof {
            expected = expected.push(joined(h@, ".local/share/applications"@));
        }
    }
    assert(views(dirs@) =~= expected);
    match data_dirs {
        Some(list) => {
            let ghost start = expected;
            let ghost mapped = views(list@).map_values(|d: Seq<char>| joined(d, "applications"@));
            let mut i: usize = 0;
            while i < list.len()
                invariant
                    i <= list@.len(),
                    mapped == views(list@).map_values(|d: Seq<char>| joined(d, "applications"@)),
                    views(dirs@) == start + mapped.take(i as int),
                decreases list.len() - i,
            {
                let ghost before = views(dirs@);
                dirs.push(join_path(list[i].as_str(), "applications"));
                assert(views(dirs@) == before.push(mapped[i as int]));
                assert(mapped.take(i + 1) == mapped.take(i as int).push(mapped[i as int]));
                i = i + 1;
            }
            assert(mapped.take(list@.len() as int) == mapped);
        },
        None => {
            let ghost before = views(dirs@);
            dirs.push(owned("/usr/local/share/applications"));
            dirs.push(owned("/usr/share/applications"));
            assert(views(dirs@) =~= before + seq![
                "/usr/local/share/applications"@,
                "/usr/share/applications"@,
            ]);
        },
    }
    push_unique(&mut dirs, owned("/usr/local/share/applications"));
    push_unique(&mut dirs, owned("/usr/share/applications"));
    dirs
}

// ---------------------------------------------------------------------------
// Desktop file ids
// ---------------------------------------------------------------------------

/// `s` with every `/` replaced by `-`.
pub open spec fn dashed(s: Seq<char>) -> Seq<char> {
    s.map_values(|c: char| if c == '/' { '-' } else { c })
}

/// The desktop file id of the file at `path` found under `base`: its path
/// relative to `base` with `/` replaced by `-`, or its file name, or the path.
pub open spec fn desktop_id(base: Seq<char>, path: Seq<char>) -> Seq<char> {
    match stripped_prefix(path, base) {
        Some(rel) => dashed(rel),
        None => match file_name_of(path) {
            Some(name) => name,
            None => path,
        },
    }
}

/// The desktop file id of the file at `path` found under `base`.
pub fn desktop_file_id(base: &str, path: &str) -> (r: String)
    ensures
        r@ == desktop_id(base@, path@),
{
    match strip_path_prefix(path, base) {
        Some(rel) => {
            let chars = chars_of(rel.as_str());
            let mut out = String::new();
            let mut i: usize = 0;
            while i < chars.len()
                invariant
                    i <= chars@.len(),
                    out@ == dashed(chars@.take(i as int)),
                decreases chars.len() - i,
            {
                let c = chars[i];
                push_char(&mut out, if c == '/' { '-' } else { c });
                assert(dashed(chars@.take(i + 1)) == dashed(chars@.take(i as int)).push(
                    if c == '/' { '-' } else { c },
                ));
                i = i + 1;
            }
            assert(chars@.take(chars@.len() as int) == chars@);
            out
        },
        None => match path_file_name(path) {
            Some(name) => name,
            None => owned(path),
        },
    }
}

} // verus!
