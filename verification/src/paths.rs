//! Paths as text. How a path is taken apart and put together is left to
//! `std::path`; the functions here hand its answers on and give them names
//! that contracts can speak of.

use std::path::Path;
use vstd::prelude::*;

verus! {

/// The path that `std::path::Path::join` makes of `base` and `rel`.
pub uninterp spec fn joined(base: Seq<char>, rel: Seq<char>) -> Seq<char>;

/// The path that `std::path::Path::parent` gives for `path`: the path without
/// its final component, if it has one.
pub uninterp spec fn parent_of(path: Seq<char>) -> Option<Seq<char>>;

/// The name that `std::path::Path::file_name` gives for `path`: its final
/// component, if that is a regular one.
pub uninterp spec fn file_name_of(path: Seq<char>) -> Option<Seq<char>>;

/// Calls `std::path::Path::join`. Believed, not proved: the result depends on
/// the two texts alone, and is text again, since both arguments are.
#[verifier::external_body]
pub(crate) fn join(base: &str, rel: &str) -> (path: String)
    ensures
        path@ == joined(base@, rel@),
{
    Path::new(base).join(rel).to_string_lossy().into_owned()
}

/// Calls `std::path::Path::parent`. Believed, not proved: the result depends
/// on the text of `path` alone, and is a piece of that text.
#[verifier::external_body]
pub(crate) fn parent(path: &str) -> (dir: Option<String>)
    ensures
        dir is Some == parent_of(path@) is Some,
        dir matches Some(d) ==> parent_of(path@) == Some(d@),
{
    match Path::new(path).parent() {
        Some(dir) => Some(dir.to_string_lossy().into_owned()),
        None => None,
    }
}

/// Calls `std::path::Path::file_name`. Believed, not proved: the result
/// depends on the text of `path` alone, and is a piece of that text.
#[verifier::external_body]
pub(crate) fn file_name(path: &str) -> (name: Option<String>)
    ensures
        name is Some == file_name_of(path@) is Some,
        name matches Some(n) ==> file_name_of(path@) == Some(n@),
{
    match Path::new(path).file_name() {
        Some(name) => Some(name.to_string_lossy().into_owned()),
        None => None,
    }
}

} // verus!
