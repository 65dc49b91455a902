//! Document discovery: which files hold GraphQL documents.
//!
//! Document patterns are globs relative to a base directory; a pattern that
//! starts with `!` excludes what it matches:
//! `["src/**/*.tsx", "!src/__generated__/**", "!**/*.test.tsx"]`.
//! Hidden entries, `node_modules` and `target` are never entered.
use vstd::prelude::*;

use globset::{GlobSet, GlobSetBuilder};

pub mod collect;

use crate::config::StringOrArray;
use crate::globs::{
    builder_add, builder_build, builder_new, builder_patterns, glob_error_text, glob_parses,
    glob_set_builds, glob_set_is_match, portable_patterns, set_is_match, set_patterns,
};
use crate::text::{chars_of, push_str, str_eq, string_from_chars, to_owned_string};

verus! {

/// Errors of document discovery and loading.
#[derive(Debug, Clone)]
pub enum DocumentError {
    /// A file could not be read: its path and the reason.
    FileRead(String, String),
    /// A pattern is not a valid glob.
    InvalidGlob { pattern: String, message: String },
}

// ── Ignored entries ─────────────────────────────────────────────────────────

/// Whether an entry with this name is skipped: hidden entries,
/// `node_modules` and `target`.
pub open spec fn is_ignored_name(name: Seq<char>) -> bool {
    (name.len() > 0 && name[0] == '.') || name == "node_modules"@ || name == "target"@
}

/// Whether an entry with this name is skipped.
pub fn is_ignored(name: &str) -> (r: bool)
    ensures
        r == is_ignored_name(name@),
{
    let cs = chars_of(name);
    (cs.len() > 0 && cs[0] == '.') || str_eq(name, "node_modules") || str_eq(name, "target")
}

// ── Patterns ───────────────────────────────────────────────────────────────

/// Whether a pattern excludes: it starts with `!`.
pub open spec fn is_negated(p: Seq<char>) -> bool {
    p.len() > 0 && p[0] == '!'
}

/// The glob of a pattern: without its leading `!` when it has one.
pub open spec fn glob_of(p: Seq<char>) -> Seq<char> {
    if is_negated(p) {
        p.drop_first()
    } else {
        p
    }
}

/// The including patterns, in order.
pub open spec fn includes_of(ps: Seq<Seq<char>>) -> Seq<Seq<char>>
    decreases ps.len(),
{
    if ps.len() == 0 {
        Seq::empty()
    } else if is_negated(ps.last()) {
        includes_of(ps.drop_last())
    } else {
        includes_of(ps.drop_last()).push(ps.last())
    }
}

/// The globs of the excluding patterns, in order.
pub open spec fn excludes_of(ps: Seq<Seq<char>>) -> Seq<Seq<char>>
    decreases ps.len(),
{
    if ps.len() == 0 {
        Seq::empty()
    } else if is_negated(ps.last()) {
        excludes_of(ps.drop_last()).push(glob_of(ps.last()))
    } else {
        excludes_of(ps.drop_last())
    }
}

/// Whether every pattern's glob parses.
pub open spec fn all_parse(ps: Seq<Seq<char>>) -> bool {
    forall|i: int| 0 <= i < ps.len() ==> #[trigger] glob_parses(glob_of(ps[i]))
}

/// The first pattern whose glob does not parse.
pub open spec fn first_invalid(ps: Seq<Seq<char>>) -> int {
    choose|i: int|
        0 <= i < ps.len() && !glob_parses(glob_of(ps[i])) && forall|j: int|
            0 <= j < i ==> #[trigger] glob_parses(glob_of(ps[j]))
}

/// `items` joined by `sep`.
pub open spec fn join_spec(items: Seq<Seq<char>>, sep: Seq<char>) -> Seq<char>
    decreases items.len(),
{
    if items.len() == 0 {
        Seq::empty()
    } else if items.len() == 1 {
        items[0]
    } else {
        join_spec(items.drop_last(), sep) + sep + items.last()
    }
}

/// `items` joined by `sep` (`[&str]::join`).
pub fn join(items: &Vec<&str>, sep: &str) -> (r: String)
    ensures
        r@ == join_spec(items@.map_values(|s: &str| s@), sep@),
{
    let ghost views = items@.map_values(|s: &str| s@);
    let mut out = String::new();
    let mut i: usize = 0;
    while i < items.len()
        invariant
            i <= items@.len(),
            views == items@.map_values(|s: &str| s@),
            out@ == join_spec(views.subrange(0, i as int), sep@),
        decreases items@.len() - i,
    {
        if i > 0 {
            push_str(&mut out, sep);
        }
        push_str(&mut out, items[i]);
        proof {
            let prefix = views.subrange(0, i + 1);
            assert(prefix.drop_last() =~= views.subrange(0, i as int));
            assert(out@ =~= join_spec(prefix, sep@));
        }
        i = i + 1;
    }
    proof {
        assert(views.subrange(0, i as int) =~= views);
    }
    out
}

// ── Document globs ─────────────────────────────────────────────────────────

/// The compiled document patterns: the including globs, and the excluding
/// ones when there are any.
pub struct DocumentGlobs {
    include_set: GlobSet,
    exclude_set: Option<GlobSet>,
}

/// How compiling document patterns ends.
pub open spec fn compile_outcome(ps: Seq<Seq<char>>) -> int {
    if !all_parse(ps) {
        0
    } else if includes_of(ps).len() == 0 {
        1
    } else if !glob_set_builds(includes_of(ps)) || (excludes_of(ps).len() > 0 && !glob_set_builds(
        excludes_of(ps),
    )) {
        2
    } else {
        3
    }
}

/// Whether compiling ended with an invalid glob reported for `pattern`.
pub open spec fn reports_invalid(r: Result<Option<DocumentGlobs>, DocumentError>, pattern: Seq<char>) -> bool {
    match r {
        Err(DocumentError::InvalidGlob { pattern: p, .. }) => p@ == pattern,
        _ => false,
    }
}

/// Whether compiling gave the globs of the patterns.
pub open spec fn compiled(r: Result<Option<DocumentGlobs>, DocumentError>, ps: Seq<Seq<char>>) -> bool {
    match r {
        Ok(Some(g)) => g.includes() == includes_of(ps) && g.excludes() == excludes_of(ps),
        _ => false,
    }
}

impl DocumentGlobs {
    /// The including globs.
    pub closed spec fn includes(&self) -> Seq<Seq<char>> {
        set_patterns(self.include_set)
    }

    /// The excluding globs.
    pub closed spec fn excludes(&self) -> Seq<Seq<char>> {
        match self.exclude_set {
            Some(s) => set_patterns(s),
            None => Seq::empty(),
        }
    }

    /// Whether no glob holds a backslash.
    pub open spec fn portable(&self) -> bool {
        portable_patterns(self.includes()) && portable_patterns(self.excludes())
    }

    /// Whether the excluding globs match the path.
    pub open spec fn excluded(&self, path: Seq<char>) -> bool {
        self.excludes().len() > 0 && glob_set_is_match(self.excludes(), path)
    }

    /// Compiles document patterns.
    ///
    /// The first pattern whose glob is invalid is reported with the
    /// parser's message; without including patterns there is nothing to
    /// match (`None`); when a set of globs fails to build, all the patterns
    /// are reported, joined by `, `.
    pub fn new(patterns: &StringOrArray) -> (r: Result<Option<DocumentGlobs>, DocumentError>)
        ensures
            r matches Ok(Some(_)) ==> compiled(r, patterns.items()),
            r matches Ok(None) ==> includes_of(patterns.items()).len() == 0,
            portable_patterns(patterns.items()) ==> match r {
                Ok(Some(g)) => g.portable(),
                _ => true,
            },
            portable_patterns(patterns.items()) && compile_outcome(patterns.items()) == 0
                ==> reports_invalid(r, patterns.items()[first_invalid(patterns.items())]),
            portable_patterns(patterns.items()) && compile_outcome(patterns.items()) == 1 ==> r matches Ok(
                None,
            ),
            portable_patterns(patterns.items()) && compile_outcome(patterns.items()) == 2
                ==> reports_invalid(r, join_spec(patterns.items(), ", "@)),
            portable_patterns(patterns.items()) && compile_outcome(patterns.items()) == 3 ==> compiled(
                r,
                patterns.items(),
            ),
    {
        let pattern_strs = patterns.as_vec();
        let ghost ps = patterns.items();
        assert(pattern_strs@.map_values(|s: &str| s@) == ps);
        assert forall|k: int| 0 <= k < ps.len() implies ps[k] == (#[trigger] pattern_strs@[k])@ by {
            assert(pattern_strs@.map_values(|s: &str| s@)[k] == pattern_strs@[k]@);
        }
        assert(ps.subrange(0, 0) =~= Seq::<Seq<char>>::empty());
        proof {
            if portable_patterns(ps) {
                lemma_parts_portable(ps);
            }
        }
        let mut include_builder = builder_new();
        let mut has_includes = false;
        let mut exclude_builder = builder_new();
        let mut has_excludes = false;
        let mut i: usize = 0;
        while i < pattern_strs.len()
            invariant
                ps == patterns.items(),
                pattern_strs@.map_values(|s: &str| s@) == ps,
                i <= pattern_strs@.len(),
                ps.len() == pattern_strs@.len(),
                forall|k: int| 0 <= k < ps.len() ==> ps[k] == (#[trigger] pattern_strs@[k])@,
                portable_patterns(ps) ==> forall|k: int| 0 <= k < i ==> #[trigger] glob_parses(glob_of(ps[k])),
                builder_patterns(include_builder) == includes_of(ps.subrange(0, i as int)),
                builder_patterns(exclude_builder) == excludes_of(ps.subrange(0, i as int)),
                has_includes == (includes_of(ps.subrange(0, i as int)).len() > 0),
                has_excludes == (excludes_of(ps.subrange(0, i as int)).len() > 0),
            decreases pattern_strs@.len() - i,
        {
            let pattern = pattern_strs[i];
            let cs = chars_of(pattern);
            let ghost prefix = ps.subrange(0, i + 1);
            proof {
                assert(prefix.drop_last() =~= ps.subrange(0, i as int));
                assert(prefix.last() == ps[i as int]);
            }
            if cs.len() > 0 && cs[0] == '!' {
                let negated = string_from_chars(&cs, 1, cs.len());
                proof {
                    assert(negated@ =~= glob_of(ps[i as int]));
                }
                match builder_add(&mut exclude_builder, negated.as_str()) {
                    Ok(()) => {},
                    Err(e) => {
                        proof {
                            if portable_patterns(ps) {
                                assert(!glob_of(ps[i as int]).contains('\\'));
                                assert(!all_parse(ps));
                                assert(first_invalid(ps) == i) by {
                                    lemma_first_invalid(ps, i as int);
                                }
                            }
                        }
                        return Err(
                            DocumentError::InvalidGlob {
                                pattern: to_owned_string(pattern),
                                message: glob_error_text(&e),
                            },
                        );
                    },
                }
                has_excludes = true;
            } else {
                proof {
                    assert(cs@ == ps[i as int]);
                    assert(glob_of(ps[i as int]) == ps[i as int]);
                }
                match builder_add(&mut include_builder, pattern) {
                    Ok(()) => {},
                    Err(e) => {
                        proof {
                            if portable_patterns(ps) {
                                assert(!glob_of(ps[i as int]).contains('\\'));
                                assert(!all_parse(ps));
                                assert(first_invalid(ps) == i) by {
                                    lemma_first_invalid(ps, i as int);
                                }
                            }
                        }
                        return Err(
                            DocumentError::InvalidGlob {
                                pattern: to_owned_string(pattern),
                                message: glob_error_text(&e),
                            },
                        );
                    },
                }
                has_includes = true;
            }
            i = i + 1;
        }
        proof {
            assert(ps.subrange(0, i as int) =~= ps);
            if portable_patterns(ps) {
                assert(all_parse(ps));
            }
        }
        if !has_includes {
            return Ok(None);
        }
        let include_set = match builder_build(&include_builder) {
            Ok(s) => s,
            Err(e) => {
                return Err(
                    DocumentError::InvalidGlob {
                        pattern: join(&pattern_strs, ", "),
                        message: glob_error_text(&e),
                    },
                );
            },
        };
        let exclude_set = if has_excludes {
            match builder_build(&exclude_builder) {
                Ok(s) => Some(s),
                Err(e) => {
                    return Err(
                        DocumentError::InvalidGlob {
                            pattern: join(&pattern_strs, ", "),
                            message: glob_error_text(&e),
                        },
                    );
                },
            }
        } else {
            None
        };
        let g = DocumentGlobs { include_set, exclude_set };
        proof {
            if !has_excludes {
                assert(excludes_of(ps) =~= Seq::<Seq<char>>::empty());
            }
            assert(g.includes() == includes_of(ps));
            assert(g.excludes() == excludes_of(ps));
        }
        Ok(Some(g))
    }

    fn is_excluded(&self, path: &str) -> (r: bool)
        ensures
            !path@.contains('\\') && self.portable() ==> r == self.excluded(path@),
    {
        match &self.exclude_set {
            Some(set) => set_is_match(set, path),
            None => false,
        }
    }

    /// Whether the walk enters or keeps an entry: the walk's root (empty
    /// relative path) always; any other entry when it is not ignored and,
    /// for a directory, not excluded.
    pub fn keeps_entry(&self, relative: &str, name: &str, is_dir: bool) -> (r: bool)
        ensures
            relative@.len() == 0 ==> r,
            relative@.len() > 0 && !relative@.contains('\\') && self.portable() ==> r == (!is_ignored_name(
                name@,
            ) && !(is_dir && self.excluded(relative@))),
    {
        if relative.as_bytes().len() == 0 {
            proof {
                assert(relative@.len() == 0) by {
                    if relative@.len() > 0 {
                        vstd::utf8::encode_utf8_first_scalar(relative@);
                    }
                }
            }
            return true;
        }
        if is_ignored(name) {
            return false;
        }
        if is_dir && self.is_excluded(relative) {
            return false;
        }
        true
    }

    /// Whether a file is a document: included and not excluded.
    pub fn selects_file(&self, relative: &str) -> (r: bool)
        ensures
            !relative@.contains('\\') && self.portable() ==> r == (glob_set_is_match(self.includes(), relative@)
                && !self.excluded(relative@)),
    {
        set_is_match(&self.include_set, relative) && !self.is_excluded(relative)
    }
}

proof fn lemma_glob_of_portable(p: Seq<char>)
    requires
        !p.contains('\\'),
    ensures
        !glob_of(p).contains('\\'),
{
    if is_negated(p) && glob_of(p).contains('\\') {
        let j = choose|j: int| 0 <= j < glob_of(p).len() && glob_of(p)[j] == '\\';
        assert(p[j + 1] == glob_of(p)[j]);
    }
}

proof fn lemma_parts_portable(ps: Seq<Seq<char>>)
    requires
        portable_patterns(ps),
    ensures
        portable_patterns(includes_of(ps)),
        portable_patterns(excludes_of(ps)),
        forall|i: int| 0 <= i < ps.len() ==> !(#[trigger] glob_of(ps[i])).contains('\\'),
    decreases ps.len(),
{
    assert forall|i: int| 0 <= i < ps.len() implies !(#[trigger] glob_of(ps[i])).contains('\\') by {
        assert(!ps[i].contains('\\'));
        lemma_glob_of_portable(ps[i]);
    }
    if ps.len() > 0 {
        let q = ps.drop_last();
        assert forall|i: int| 0 <= i < q.len() implies !(#[trigger] q[i]).contains('\\') by {
            assert(q[i] == ps[i]);
        }
        lemma_parts_portable(q);
        let last = ps.last();
        assert(!ps[ps.len() - 1].contains('\\'));
        assert(last == ps[ps.len() - 1]);
        lemma_glob_of_portable(last);
        let inc = includes_of(q);
        let exc = excludes_of(q);
        if is_negated(last) {
            let e2 = exc.push(glob_of(last));
            assert forall|i: int| 0 <= i < e2.len() implies !(#[trigger] e2[i]).contains('\\') by {
                if i < exc.len() {
                    assert(e2[i] == exc[i]);
                }
            }
        } else {
            let i2 = inc.push(last);
            assert forall|i: int| 0 <= i < i2.len() implies !(#[trigger] i2[i]).contains('\\') by {
                if i < inc.len() {
                    assert(i2[i] == inc[i]);
                }
            }
        }
    }
}

proof fn lemma_first_invalid(ps: Seq<Seq<char>>, i: int)
    requires
        0 <= i < ps.len(),
        !glob_parses(glob_of(ps[i])),
        forall|k: int| 0 <= k < i ==> #[trigger] glob_parses(glob_of(ps[k])),
    ensures
        first_invalid(ps) == i,
{
    assert(exists|j: int|
        0 <= j < ps.len() && !glob_parses(glob_of(ps[j])) && forall|k: int|
            0 <= k < j ==> #[trigger] glob_parses(glob_of(ps[k]))) by {
        assert(0 <= i < ps.len() && !glob_parses(glob_of(ps[i])));
    }
    let j = first_invalid(ps);
    assert(0 <= j < ps.len() && !glob_parses(glob_of(ps[j])) && forall|k: int|
        0 <= k < j ==> #[trigger] glob_parses(glob_of(ps[k])));
    if j < i {
        assert(glob_parses(glob_of(ps[j])));
    }
    if j > i {
        assert(glob_parses(glob_of(ps[i])));
    }
}

} // verus!
