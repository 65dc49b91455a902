//! Glob sets, by way of the `globset` crate.
//!
//! A builder collects glob patterns; a set built from it tells whether a
//! path matches any of them. What a set matches is named rather than
//! restated: [`glob_set_is_match`] is the answer of a set built from the
//! given patterns.
//!
//! globset reads a backslash in a pattern as an escape only on platforms
//! where it is not a path separator, so the names speak only of patterns
//! without backslashes (and of paths without them), on which every platform
//! agrees.
use vstd::prelude::*;

use globset::{Glob, GlobSet, GlobSetBuilder};

verus! {

#[verifier::external_type_specification]
#[verifier::external_body]
pub struct ExGlobSetBuilder(globset::GlobSetBuilder);

#[verifier::external_type_specification]
#[verifier::external_body]
pub struct ExGlobSet(globset::GlobSet);

#[verifier::external_type_specification]
#[verifier::external_body]
pub struct ExGlobError(globset::Error);

/// The patterns added to a builder, in order.
pub uninterp spec fn builder_patterns(b: GlobSetBuilder) -> Seq<Seq<char>>;

/// The patterns a set was built from, in order.
pub uninterp spec fn set_patterns(s: GlobSet) -> Seq<Seq<char>>;

/// Whether none of the patterns holds a backslash.
pub open spec fn portable_patterns(ps: Seq<Seq<char>>) -> bool {
    forall|i: int| 0 <= i < ps.len() ==> !(#[trigger] ps[i]).contains('\\')
}

/// Whether `Glob::new` accepts the pattern (one without backslashes).
pub uninterp spec fn glob_parses(pattern: Seq<char>) -> bool;

/// Whether `GlobSetBuilder::build` succeeds on these patterns (ones
/// without backslashes).
pub uninterp spec fn glob_set_builds(patterns: Seq<Seq<char>>) -> bool;

/// Whether the set built from these patterns (ones without backslashes)
/// matches the path (one without backslashes, `/` its only separator).
pub uninterp spec fn glob_set_is_match(patterns: Seq<Seq<char>>, path: Seq<char>) -> bool;

/// Calls `GlobSetBuilder::new`. Claimed: the builder holds no pattern.
#[verifier::external_body]
pub(crate) fn builder_new() -> (r: GlobSetBuilder)
    ensures
        builder_patterns(r) == Seq::<Seq<char>>::empty(),
{
    GlobSetBuilder::new()
}

/// Calls `Glob::new` on the pattern and `GlobSetBuilder::add` with the glob.
/// Claimed: the pattern is added when `Glob::new` accepts it and the builder
/// is unchanged when it does not; for a pattern without backslashes, it is
/// accepted exactly when it parses.
#[verifier::external_body]
pub(crate) fn builder_add(b: &mut GlobSetBuilder, pattern: &str) -> (r: Result<(), globset::Error>)
    ensures
        !pattern@.contains('\\') ==> (r is Ok <==> glob_parses(pattern@)),
        r is Ok ==> builder_patterns(*final(b)) == builder_patterns(*old(b)).push(pattern@),
        r is Err ==> builder_patterns(*final(b)) == builder_patterns(*old(b)),
{
    let glob = Glob::new(pattern)?;
    b.add(glob);
    Ok(())
}

/// Calls `GlobSetBuilder::build`. Claimed: on patterns without backslashes
/// it succeeds exactly when the named condition holds of them; it always
/// succeeds when there are none; the set holds the added patterns.
#[verifier::external_body]
pub(crate) fn builder_build(b: &GlobSetBuilder) -> (r: Result<GlobSet, globset::Error>)
    ensures
        portable_patterns(builder_patterns(*b)) ==> (r is Ok <==> glob_set_builds(builder_patterns(*b))),
        builder_patterns(*b).len() == 0 ==> r is Ok,
        r matches Ok(s) ==> set_patterns(s) == builder_patterns(*b),
{
    b.build()
}

/// Calls `GlobSet::is_match`. Claimed: when neither the path nor the set's
/// patterns hold a backslash (which platforms read differently) the answer
/// is the named one; a set without patterns matches nothing. Nothing is
/// claimed of the answer otherwise.
#[verifier::external_body]
pub(crate) fn set_is_match(s: &GlobSet, path: &str) -> (r: bool)
    ensures
        !path@.contains('\\') && portable_patterns(set_patterns(*s)) ==> r == glob_set_is_match(
            set_patterns(*s),
            path@,
        ),
        set_patterns(*s).len() == 0 ==> !r,
{
    s.is_match(path)
}

/// Calls `globset::Error`'s `Display`. Nothing is claimed of the text.
#[verifier::external_body]
pub(crate) fn glob_error_text(e: &globset::Error) -> (r: String) {
    e.to_string()
}

} // verus!
