//! The parts of a path, by way of `std::path::Path`.
//!
//! How a path splits into components depends on the platform: some read a
//! backslash as a separator, and a leading `C:` or `//server` as a prefix.
//! On paths with none of these, every platform agrees, and the parts are
//! named.
use vstd::prelude::*;

verus! {

/// A path that every platform splits the same way: no backslash, no colon,
/// and not starting with two slashes (which some platforms read as the
/// prefix of a network share).
pub open spec fn portable_path(p: Seq<char>) -> bool {
    &&& !p.contains('\\')
    &&& !p.contains(':')
    &&& !(p.len() >= 2 && p[0] == '/' && p[1] == '/')
}

/// The parent of a path, as `Path::parent` finds it.
pub uninterp spec fn parent_of(path: Seq<char>) -> Option<Seq<char>>;

/// The name of the file a path names without its extension, as
/// `Path::file_stem` finds it.
pub uninterp spec fn file_stem_of(path: Seq<char>) -> Option<Seq<char>>;

/// The extension of the file a path names, as `Path::extension` finds it.
pub uninterp spec fn extension_of(path: Seq<char>) -> Option<Seq<char>>;

/// Calls `Path::parent`. Claimed: on a portable path the result is the
/// named one.
#[verifier::external_body]
pub(crate) fn path_parent(path: &str) -> (r: Option<String>)
    ensures
        portable_path(path@) ==> match r {
            Some(p) => parent_of(path@) == Some(p@),
            None => parent_of(path@) is None,
        },
{
    std::path::Path::new(path).parent().map(|p| p.to_string_lossy().into_owned())
}

/// Calls `Path::file_stem`. Claimed: on a portable path the result is the
/// named one.
#[verifier::external_body]
pub(crate) fn path_file_stem(path: &str) -> (r: Option<String>)
    ensures
        portable_path(path@) ==> match r {
            Some(p) => file_stem_of(path@) == Some(p@),
            None => file_stem_of(path@) is None,
        },
{
    std::path::Path::new(path).file_stem().map(|s| s.to_string_lossy().into_owned())
}

/// Calls `Path::extension`. Claimed: on a portable path the result is the
/// named one.
#[verifier::external_body]
pub(crate) fn path_extension(path: &str) -> (r: Option<String>)
    ensures
        portable_path(path@) ==> match r {
            Some(p) => extension_of(path@) == Some(p@),
            None => extension_of(path@) is None,
        },
{
    std::path::Path::new(path).extension().map(|s| s.to_string_lossy().into_owned())
}

/// The text of an optional part, empty when there is none.
pub open spec fn or_empty(p: Option<Seq<char>>) -> Seq<char> {
    match p {
        Some(s) => s,
        None => Seq::empty(),
    }
}

/// The text of an optional part, empty when there is none.
pub fn text_or_empty(p: Option<String>) -> (r: String)
    ensures
        r@ == or_empty(match p {
            Some(s) => Some(s@),
            None => None,
        }),
{
    match p {
        Some(s) => s,
        None => String::new(),
    }
}

} // verus!
