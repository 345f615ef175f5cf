//! Paths as text, and the path operations that the resolution and the
//! rewriting rules are stated in.
//!
//! A path is held as a `String`. What std's `Path` and pathdiff compute on
//! one is named here and taken from them; what follows from their documented
//! behaviour in a few lines is stated and proved.
use std::path::Path;

use vstd::prelude::*;

use crate::text::chars_of;

verus! {

/// What std's `Path::parent` gives for a path.
pub uninterp spec fn path_parent(p: Seq<char>) -> Option<Seq<char>>;

/// What std's `Path::join` gives for a base path and a path to append.
pub uninterp spec fn path_join(base: Seq<char>, rel: Seq<char>) -> Seq<char>;

/// What std's `Path::file_name` gives for a path.
pub uninterp spec fn path_file_name(p: Seq<char>) -> Option<Seq<char>>;

/// What std's `Path::is_absolute` gives for a path.
pub uninterp spec fn path_is_absolute(p: Seq<char>) -> bool;

/// What std's `Path::with_file_name` gives for a path and a new file name.
pub uninterp spec fn path_with_file_name(p: Seq<char>, name: Seq<char>) -> Seq<char>;

/// What pathdiff's `diff_paths(path, base)` gives: a path that leads from
/// the directory `base` to `path`, where one exists.
pub uninterp spec fn path_diff(path: Seq<char>, base: Seq<char>) -> Option<Seq<char>>;

/// The text of an optional string.
pub open spec fn opt_text(o: Option<String>) -> Option<Seq<char>> {
    match o {
        Some(s) => Some(s@),
        None => None,
    }
}

/// Relies on std's `Path::parent`: the path without its final component.
#[verifier::external_body]
pub(crate) fn parent_of(p: &str) -> (r: Option<String>)
    ensures
        opt_text(r) == path_parent(p@),
{
    Path::new(p).parent().map(|q| q.to_string_lossy().into_owned())
}

/// Relies on std's `Path::join`: `rel` appended to `base`.
#[verifier::external_body]
pub(crate) fn join(base: &str, rel: &str) -> (r: String)
    ensures
        r@ == path_join(base@, rel@),
{
    Path::new(base).join(rel).to_string_lossy().into_owned()
}

/// Relies on std's `Path::file_name`: the final component of a path, if it
/// is a normal one.
#[verifier::external_body]
pub(crate) fn file_name_of(p: &str) -> (r: Option<String>)
    ensures
        opt_text(r) == path_file_name(p@),
{
    Path::new(p).file_name().map(|n| n.to_string_lossy().into_owned())
}

/// Relies on std's `Path::is_absolute`: whether a path is independent of
/// the current directory.
#[verifier::external_body]
pub(crate) fn is_absolute(p: &str) -> (r: bool)
    ensures
        r == path_is_absolute(p@),
{
    Path::new(p).is_absolute()
}

/// Relies on std's `Path::with_file_name`: the path with its final
/// component replaced by `name`.
#[verifier::external_body]
pub(crate) fn with_file_name(p: &str, name: &str) -> (r: String)
    ensures
        r@ == path_with_file_name(p@, name@),
{
    Path::new(p).with_file_name(name).to_string_lossy().into_owned()
}

/// Relies on pathdiff's `diff_paths`: the relative path from the directory
/// `base` to `path`, where there is one.
#[verifier::external_body]
pub(crate) fn diff_paths(path: &str, base: &str) -> (r: Option<String>)
    ensures
        opt_text(r) == path_diff(path@, base@),
{
    pathdiff::diff_paths(path, base).map(|d| d.to_string_lossy().into_owned())
}

/// Whether `name` is a file name whose extension is `md`: it ends in `.md`
/// with at least one character before the dot, which is what std's
/// `Path::extension` documents for a name (the part after the final dot,
/// unless the dot is the name's first character).
pub open spec fn is_markdown_name(name: Seq<char>) -> bool {
    &&& name.len() >= 4
    &&& name[name.len() - 3] == '.'
    &&& name[name.len() - 2] == 'm'
    &&& name[name.len() - 1] == 'd'
}

/// Whether the path names a Markdown document: its extension is `md`.
pub open spec fn is_markdown_path(p: Seq<char>) -> bool {
    match path_file_name(p) {
        Some(name) => is_markdown_name(name),
        None => false,
    }
}

/// Whether the path `p` has the extension `md`.
pub fn is_markdown(p: &str) -> (r: bool)
    ensures
        r == is_markdown_path(p@),
{
    match file_name_of(p) {
        Some(name) => {
            let cs = chars_of(name.as_str());
            let n = cs.len();
            n >= 4 && cs[n - 3] == '.' && cs[n - 2] == 'm' && cs[n - 1] == 'd'
        },
        None => false,
    }
}

/// Where a link with the target text `link`, found in the document at
/// `base`, points: an absolute target as written, a relative one joined to
/// the document's directory; nothing where the document has no directory.
pub open spec fn resolved_link(base: Seq<char>, link: Seq<char>) -> Option<Seq<char>> {
    if path_is_absolute(link) {
        Some(link)
    } else {
        match path_parent(base) {
            Some(dir) => Some(path_join(dir, link)),
            None => None,
        }
    }
}

/// The path that the link `link` of the document at `base_path` denotes,
/// before any check that it exists.
pub fn resolve_link(base_path: &str, link: &str) -> (r: Option<String>)
    ensures
        opt_text(r) == resolved_link(base_path@, link@),
{
    if is_absolute(link) {
        return Some(link.to_owned());
    }
    match parent_of(base_path) {
        Some(dir) => Some(join(dir.as_str(), link)),
        None => None,
    }
}

/// The link text that leads from a document in the directory `from_dir` to
/// `to`: pathdiff's relative path, or empty where it gives none.
pub open spec fn relative_text(from_dir: Seq<char>, to: Seq<char>) -> Seq<char> {
    match path_diff(to, from_dir) {
        Some(d) => d,
        None => Seq::empty(),
    }
}

/// The relative path from the directory `from_dir` to `to`, both canonical.
pub fn relative_path(from_dir: &str, to: &str) -> (r: String)
    ensures
        r@ == relative_text(from_dir@, to@),
{
    match diff_paths(to, from_dir) {
        Some(d) => d,
        None => String::new(),
    }
}

} // verus!
