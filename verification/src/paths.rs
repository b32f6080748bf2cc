use vstd::prelude::*;
use crate::text::views;
use crate::APP_NAME;

verus! {

broadcast use vstd::string::group_string_axioms;

// ---------------------------------------------------------------------------
// Path operations of the standard library
// ---------------------------------------------------------------------------

/// What `Path::join` gives for `base` joined with `rel`, as text.
pub uninterp spec fn joined(base: Seq<char>, rel: Seq<char>) -> Seq<char>;

/// What `Path::parent` gives for a path, as text.
pub uninterp spec fn parent_of(path: Seq<char>) -> Option<Seq<char>>;

/// What `Path::file_name` gives for a path, as text.
pub uninterp spec fn file_name_of(path: Seq<char>) -> Option<Seq<char>>;

/// What `Path::strip_prefix` gives for `path` without the leading `base`, as text.
pub uninterp spec fn stripped_prefix(path: Seq<char>, base: Seq<char>) -> Option<Seq<char>>;

/// Whether `Path`'s `==` holds of the paths with texts `a` and `b`.
pub uninterp spec fn same_path(a: Seq<char>, b: Seq<char>) -> bool;

/// Whether `a` and `b` are the same path.
///
/// Compares them with `Path`'s `==`, which goes by the paths' components (so
/// `/usr//share` and `/usr/share/` equal `/usr/share`); the contract names
/// the result, and states that equal texts give equal paths, as `Eq`'s
/// reflexivity demands.
#[verifier::external_body]
pub(crate) fn paths_equal(a: &str, b: &str) -> (r: bool)
    ensures
        r == same_path(a@, b@),
        a@ == b@ ==> r,
{
    std::path::Path::new(a) == std::path::Path::new(b)
}

/// `base` joined with `rel`.
///
/// Calls `Path::join`. Its documentation says that an absolute `rel`
/// replaces `base`, which the contract states; what it does otherwise is
/// named, not stated.
#[verifier::external_body]
pub(crate) fn join_path(base: &str, rel: &str) -> (r: String)
    ensures
        r@ == joined(base@, rel@),
        rel@.len() > 0 && rel@[0] == '/' ==> r@ == rel@,
{
    std::path::Path::new(base).join(rel).to_string_lossy().into_owned()
}

/// The parent of `path`.
///
/// Calls `Path::parent`; the contract names its result.
#[verifier::external_body]
pub(crate) fn path_parent(path: &str) -> (r: Option<String>)
    ensures
        match r {
            Some(p) => parent_of(path@) == Some(p@),
            None => parent_of(path@) is None,
        },
{
    std::path::Path::new(path).parent().map(|p| p.to_string_lossy().into_owned())
}

/// The last component of `path`.
///
/// Calls `Path::file_name`; the contract names its result.
#[verifier::external_body]
pub(crate) fn path_file_name(path: &str) -> (r: Option<String>)
    ensures
        match r {
            Some(p) => file_name_of(path@) == Some(p@),
            None => file_name_of(path@) is None,
        },
{
    std::path::Path::new(path).file_name().map(|p| p.to_string_lossy().into_owned())
}

/// `path` relative to `base`.
///
/// Calls `Path::strip_prefix`; the contract names its result.
#[verifier::external_body]
pub(crate) fn strip_path_prefix(path: &str, base: &str) -> (r: Option<String>)
    ensures
        match r {
            Some(p) => stripped_prefix(path@, base@) == Some(p@),
            None => stripped_prefix(path@, base@) is None,
        },
{
    std::path::Path::new(path).strip_prefix(base).ok().map(|p| p.to_string_lossy().into_owned())
}

pub open spec fn app_name() -> Seq<char> {
    APP_NAME@
}

/// The home directory, or `.` when it is unknown.
pub open spec fn home_or_here(home: Option<Seq<char>>) -> Seq<char> {
    match home {
        Some(h) => h,
        None => "."@,
    }
}

pub open spec fn opt_str_view(o: Option<&str>) -> Option<Seq<char>> {
    match o {
        Some(s) => Some(s@),
        None => None,
    }
}

pub(crate) fn home_dir<'a>(home: Option<&'a str>) -> (r: &'a str)
    ensures
        r@ == home_or_here(opt_str_view(home)),
{
    match home {
        Some(h) => h,
        None => ".",
    }
}

// ---------------------------------------------------------------------------
// Search directories
// ---------------------------------------------------------------------------

/// Some path of `values` is the same path as `value`.
pub open spec fn path_listed(values: Seq<Seq<char>>, value: Seq<char>) -> bool {
    exists|i: int| 0 <= i < values.len() && #[trigger] same_path(values[i], value)
}

/// `values` with `value` added at the end, unless the same path is there already.
pub open spec fn with_unique(values: Seq<Seq<char>>, value: Seq<char>) -> Seq<Seq<char>> {
    if path_listed(values, value) {
        values
    } else {
        values.push(value)
    }
}

/// Adds `value` at the end unless the same path is there already.
pub fn push_unique(values: &mut Vec<String>, value: String)
    ensures
        views(final(values)@) == with_unique(views(old(values)@), value@),
{
    let mut i: usize = 0;
    while i < values.len()
        invariant
            i <= values@.len(),
            forall|j: int| 0 <= j < i ==> !same_path(#[trigger] views(values@)[j], value@),
        decreases values.len() - i,
    {
        if paths_equal(values[i].as_str(), value.as_str()) {
            assert(same_path(views(values@)[i as int], value@));
            return;
        }
        i = i + 1;
    }
    let ghost before = views(values@);
    values.push(value);
    assert(views(values@) == before.push(value@));
}

} // verus!
