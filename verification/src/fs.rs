//! File systems: the real one, whose operations the caller performs, and an
//! in-memory one for tests.
use vstd::prelude::*;

use vstd::utf8::{decode_utf8, valid_utf8};

use globset::GlobSet;

use crate::globs::{
    builder_add, builder_build, builder_new, builder_patterns, glob_parses, glob_set_builds,
    glob_set_is_match, portable_patterns, set_is_match, set_patterns,
};
use crate::text::{str_eq, to_owned_string};

verus! {

/// File metadata for caching.
#[derive(Debug, Clone, Copy, PartialEq, Eq, Structural)]
pub struct FileMeta {
    pub mtime_secs: u64,
    pub size: u64,
}

/// The real file system.
#[derive(Debug, Clone, Copy)]
pub struct RealFs;

/// The text of `String::from_utf8_lossy` on the bytes.
pub uninterp spec fn utf8_lossy(bytes: Seq<u8>) -> Seq<char>;

/// Calls `String::from_utf8_lossy`. Claimed: the result is the named one,
/// and on valid UTF-8 it is the decoded text.
#[verifier::external_body]
fn from_utf8_lossy(bytes: &[u8]) -> (r: String)
    ensures
        r@ == utf8_lossy(bytes@),
        valid_utf8(bytes@) ==> r@ == decode_utf8(bytes@),
{
    String::from_utf8_lossy(bytes).into_owned()
}

/// The contents recorded for path `p`: those of its first entry.
pub open spec fn lookup(files: Seq<(String, Vec<u8>)>, p: Seq<char>) -> Option<Seq<u8>>
    decreases files.len(),
{
    if files.len() == 0 {
        None
    } else if files[0].0@ == p {
        Some(files[0].1@)
    } else {
        lookup(files.drop_first(), p)
    }
}

/// In-memory file system for testing.
pub struct MemoryFs {
    files: Vec<(String, Vec<u8>)>,
}

/// The patterns that parse, in order.
pub open spec fn parsing_patterns(ps: Seq<Seq<char>>) -> Seq<Seq<char>>
    decreases ps.len(),
{
    if ps.len() == 0 {
        Seq::empty()
    } else if glob_parses(ps.last()) {
        parsing_patterns(ps.drop_last()).push(ps.last())
    } else {
        parsing_patterns(ps.drop_last())
    }
}

proof fn lemma_parsing_portable(ps: Seq<Seq<char>>)
    requires
        portable_patterns(ps),
    ensures
        portable_patterns(parsing_patterns(ps)),
    decreases ps.len(),
{
    if ps.len() > 0 {
        assert forall|i: int| 0 <= i < ps.drop_last().len() implies !(#[trigger] ps.drop_last()[i]).contains('\\') by {
            assert(ps.drop_last()[i] == ps[i]);
        }
        lemma_parsing_portable(ps.drop_last());
        let q = parsing_patterns(ps.drop_last());
        if glob_parses(ps.last()) {
            assert forall|i: int| 0 <= i < q.push(ps.last()).len() implies !(#[trigger] q.push(ps.last())[i]).contains('\\') by {
                if i < q.len() {
                    assert(q.push(ps.last())[i] == q[i]);
                } else {
                    assert(ps.last() == ps[ps.len() - 1]);
                }
            }
        }
    }
}

/// The paths that the set built from `pats` matches, in order.
pub open spec fn matching_paths(paths: Seq<Seq<char>>, pats: Seq<Seq<char>>) -> Seq<Seq<char>>
    decreases paths.len(),
{
    if paths.len() == 0 {
        Seq::empty()
    } else if glob_set_is_match(pats, paths.last()) {
        matching_paths(paths.drop_last(), pats).push(paths.last())
    } else {
        matching_paths(paths.drop_last(), pats)
    }
}

impl MemoryFs {
    /// The contents of the file at `p`, if there is one.
    pub closed spec fn file(&self, p: Seq<char>) -> Option<Seq<u8>> {
        lookup(self.files@, p)
    }

    /// The paths of the files, in the order they were first added.
    pub closed spec fn paths(&self) -> Seq<Seq<char>> {
        self.files@.map_values(|e: (String, Vec<u8>)| e.0@)
    }

    pub fn new() -> (r: Self)
        ensures
            forall|p: Seq<char>| r.file(p) is None,
            r.paths().len() == 0,
    {
        MemoryFs { files: Vec::new() }
    }

    /// Adds a file, replacing one at the same path.
    pub fn add_file(&mut self, path: &str, content: Vec<u8>)
        ensures
            final(self).file(path@) == Some(content@),
            forall|q: Seq<char>| q != path@ ==> final(self).file(q) == old(self).file(q),
            final(self).paths() == if old(self).paths().contains(path@) {
                old(self).paths()
            } else {
                old(self).paths().push(path@)
            },
    {
        self.write(path, content.as_slice());
    }

    fn position(&self, path: &str) -> (r: Option<usize>)
        ensures
            match r {
                Some(i) => i < self.files@.len() && self.files@[i as int].0@ == path@ && forall|k: int|
                    0 <= k < i ==> self.files@[k].0@ != path@,
                None => forall|k: int| 0 <= k < self.files@.len() ==> self.files@[k].0@ != path@,
            },
    {
        let mut i: usize = 0;
        while i < self.files.len()
            invariant
                i <= self.files@.len(),
                forall|k: int| 0 <= k < i ==> self.files@[k].0@ != path@,
            decreases self.files@.len() - i,
        {
            if str_eq(self.files[i].0.as_str(), path) {
                return Some(i);
            }
            i = i + 1;
        }
        None
    }

    /// The contents of the file at `path`.
    pub fn read(&self, path: &str) -> (r: Option<Vec<u8>>)
        ensures
            match r {
                Some(v) => self.file(path@) == Some(v@),
                None => self.file(path@) is None,
            },
    {
        match self.position(path) {
            Some(i) => {
                proof {
                    lemma_lookup_first(self.files@, path@, i as int);
                }
                Some(self.files[i].1.clone())
            },
            None => {
                proof {
                    lemma_lookup_absent(self.files@, path@);
                }
                None
            },
        }
    }

    /// The text of the file at `path`, invalid UTF-8 replaced.
    pub fn read_to_string(&self, path: &str) -> (r: Option<String>)
        ensures
            match r {
                Some(s) => self.file(path@) matches Some(b) && s@ == utf8_lossy(b),
                None => self.file(path@) is None,
            },
    {
        match self.read(path) {
            Some(bytes) => Some(from_utf8_lossy(bytes.as_slice())),
            None => None,
        }
    }

    /// Writes a file, replacing one at the same path.
    pub fn write(&mut self, path: &str, content: &[u8])
        ensures
            final(self).file(path@) == Some(content@),
            forall|q: Seq<char>| q != path@ ==> final(self).file(q) == old(self).file(q),
            final(self).paths() == if old(self).paths().contains(path@) {
                old(self).paths()
            } else {
                old(self).paths().push(path@)
            },
    {
        let bytes = vstd::slice::slice_to_vec(content);
        match self.position(path) {
            Some(i) => {
                let ghost before = self.files@;
                let name = to_owned_string(path);
                self.files.set(i, (name, bytes));
                proof {
                    lemma_lookup_update(before, path@, i as int, self.files@);
                    let ps = before.map_values(|e: (String, Vec<u8>)| e.0@);
                    assert(ps[i as int] == path@);
                    assert(ps.contains(path@));
                    assert(self.paths() =~= ps);
                }
            },
            None => {
                let ghost before = self.files@;
                self.files.push((to_owned_string(path), bytes));
                proof {
                    lemma_lookup_push(before, path@, self.files@);
                    let ps = before.map_values(|e: (String, Vec<u8>)| e.0@);
                    assert(!ps.contains(path@)) by {
                        if ps.contains(path@) {
                            let k = choose|k: int| 0 <= k < ps.len() && ps[k] == path@;
                            assert(before[k].0@ == path@);
                        }
                    }
                    assert(self.paths() =~= ps.push(path@));
                }
            },
        }
    }

    /// The size of the file at `path`; the modification time is not tracked.
    pub fn metadata(&self, path: &str) -> (r: Option<FileMeta>)
        ensures
            match r {
                Some(m) => self.file(path@) matches Some(b) && m.size == b.len() && m.mtime_secs == 0,
                None => self.file(path@) is None,
            },
    {
        match self.read(path) {
            Some(bytes) => Some(FileMeta { mtime_secs: 0, size: bytes.len() as u64 }),
            None => None,
        }
    }

    pub fn path_exists(&self, path: &str) -> (r: bool)
        ensures
            r == self.file(path@) is Some,
    {
        match self.position(path) {
            Some(i) => {
                proof {
                    lemma_lookup_first(self.files@, path@, i as int);
                }
                true
            },
            None => {
                proof {
                    lemma_lookup_absent(self.files@, path@);
                }
                false
            },
        }
    }

    /// Directories are not tracked: nothing to do.
    pub fn create_dir_all(&self, path: &str) {
    }

    /// The paths of the files that the valid patterns match, in order; none
    /// when the set of patterns fails to build.
    pub fn glob(&self, patterns: &Vec<&str>, base_dir: &str) -> (r: Vec<String>)
        ensures
            ({
                let pats = parsing_patterns(patterns@.map_values(|p: &str| p@));
                &&& portable_patterns(patterns@.map_values(|p: &str| p@)) && !glob_set_builds(pats) ==> r@.len() == 0
                &&& portable_patterns(patterns@.map_values(|p: &str| p@)) && glob_set_builds(pats) && (forall|k: int|
                    0 <= k < self.paths().len() ==> !(#[trigger] self.paths()[k]).contains('\\'))
                    ==> r@.map_values(|s: String| s@) == matching_paths(self.paths(), pats)
            }),
    {
        let set = match PatternSet::new(patterns) {
            Some(s) => s,
            None => {
                return Vec::new();
            },
        };
        let ghost pats = set.patterns();
        let ghost all = self.paths();
        let ghost portable = portable_patterns(pats);
        let mut out: Vec<String> = Vec::new();
        let mut k: usize = 0;
        while k < self.files.len()
            invariant
                k <= self.files@.len(),
                all == self.paths(),
                all.len() == self.files@.len(),
                pats == set.patterns(),
                portable == portable_patterns(pats),
                portable && (forall|j: int| 0 <= j < all.len() ==> !(#[trigger] all[j]).contains('\\'))
                    ==> out@.map_values(|s: String| s@) == matching_paths(all.subrange(0, k as int), pats),
            decreases self.files@.len() - k,
        {
            let path = self.files[k].0.as_str();
            let ghost prefix = all.subrange(0, k + 1);
            proof {
                assert(prefix.drop_last() =~= all.subrange(0, k as int));
                assert(prefix.last() == path@);
            }
            if set.is_match(path) {
                let ghost before = out@;
                out.push(to_owned_string(path));
                proof {
                    assert(out@.map_values(|s: String| s@) =~= before.map_values(|s: String| s@).push(path@));
                }
            }
            k = k + 1;
        }
        proof {
            assert(all.subrange(0, k as int) =~= all);
        }
        out
    }
}

/// A set of glob patterns, invalid ones left out.
pub struct PatternSet {
    set: GlobSet,
}

impl PatternSet {
    /// The patterns of the set.
    pub closed spec fn patterns(&self) -> Seq<Seq<char>> {
        set_patterns(self.set)
    }

    /// The set of the patterns that parse; `None` when it fails to build.
    pub fn new(patterns: &Vec<&str>) -> (r: Option<PatternSet>)
        ensures
            ({
                let views = patterns@.map_values(|p: &str| p@);
                let pats = parsing_patterns(views);
                &&& portable_patterns(views) ==> (r is Some <==> glob_set_builds(pats))
                &&& portable_patterns(views) ==> match r {
                    Some(s) => s.patterns() == pats && portable_patterns(s.patterns()),
                    None => true,
                }
            }),
    {
        let ghost views = patterns@.map_values(|p: &str| p@);
        let mut builder = builder_new();
        let mut i: usize = 0;
        while i < patterns.len()
            invariant
                i <= patterns@.len(),
                views == patterns@.map_values(|p: &str| p@),
                portable_patterns(views) ==> builder_patterns(builder) == parsing_patterns(
                    views.subrange(0, i as int),
                ),
            decreases patterns@.len() - i,
        {
            let ghost prefix = views.subrange(0, i + 1);
            proof {
                assert(prefix.drop_last() =~= views.subrange(0, i as int));
                assert(prefix.last() == patterns@[i as int]@);
            }
            let _ = builder_add(&mut builder, patterns[i]);
            i = i + 1;
        }
        proof {
            assert(views.subrange(0, i as int) =~= views);
            if portable_patterns(views) {
                lemma_parsing_portable(views);
            }
        }
        match builder_build(&builder) {
            Ok(set) => Some(PatternSet { set }),
            Err(_) => None,
        }
    }

    /// Whether a pattern of the set matches the path.
    pub fn is_match(&self, path: &str) -> (r: bool)
        ensures
            !path@.contains('\\') && portable_patterns(self.patterns()) ==> r == glob_set_is_match(
                self.patterns(),
                path@,
            ),
    {
        set_is_match(&self.set, path)
    }
}

impl Default for MemoryFs {
    fn default() -> (r: Self)
        ensures
            forall|p: Seq<char>| r.file(p) is None,
    {
        MemoryFs::new()
    }
}

proof fn lemma_lookup_first(files: Seq<(String, Vec<u8>)>, p: Seq<char>, i: int)
    requires
        0 <= i < files.len(),
        files[i].0@ == p,
        forall|k: int| 0 <= k < i ==> files[k].0@ != p,
    ensures
        lookup(files, p) == Some(files[i].1@),
    decreases i,
{
    if i > 0 {
        assert(files[0].0@ != p);
        let rest = files.drop_first();
        assert forall|k: int| 0 <= k < i - 1 implies rest[k].0@ != p by {
            assert(rest[k] == files[k + 1]);
        }
        lemma_lookup_first(rest, p, i - 1);
    }
}

proof fn lemma_lookup_absent(files: Seq<(String, Vec<u8>)>, p: Seq<char>)
    requires
        forall|k: int| 0 <= k < files.len() ==> files[k].0@ != p,
    ensures
        lookup(files, p) is None,
    decreases files.len(),
{
    if files.len() > 0 {
        let rest = files.drop_first();
        assert forall|k: int| 0 <= k < rest.len() implies rest[k].0@ != p by {
            assert(rest[k] == files[k + 1]);
        }
        lemma_lookup_absent(rest, p);
    }
}

proof fn lemma_lookup_push(before: Seq<(String, Vec<u8>)>, p: Seq<char>, after: Seq<(String, Vec<u8>)>)
    requires
        forall|k: int| 0 <= k < before.len() ==> before[k].0@ != p,
        after.len() == before.len() + 1,
        forall|k: int| 0 <= k < before.len() ==> after[k] == before[k],
        after[before.len() as int].0@ == p,
    ensures
        lookup(after, p) == Some(after[before.len() as int].1@),
        forall|q: Seq<char>| q != p ==> lookup(after, q) == lookup(before, q),
    decreases before.len(),
{
    lemma_lookup_first(after, p, before.len() as int);
    if before.len() > 0 {
        assert(after[0] == before[0]);
        lemma_lookup_push(before.drop_first(), p, after.drop_first());
        assert forall|q: Seq<char>| q != p implies lookup(after, q) == lookup(before, q) by {
            if before[0].0@ != q {
                assert(lookup(after, q) == lookup(after.drop_first(), q));
                assert(lookup(before, q) == lookup(before.drop_first(), q));
            }
        }
    } else {
        assert forall|q: Seq<char>| q != p implies lookup(after, q) == lookup(before, q) by {
            assert(after[0].0@ != q);
            assert(lookup(after, q) == lookup(after.drop_first(), q));
            assert(after.drop_first().len() == 0);
        }
    }
}

proof fn lemma_lookup_update(
    before: Seq<(String, Vec<u8>)>,
    p: Seq<char>,
    i: int,
    after: Seq<(String, Vec<u8>)>,
)
    requires
        0 <= i < before.len(),
        before[i].0@ == p,
        forall|k: int| 0 <= k < i ==> before[k].0@ != p,
        after.len() == before.len(),
        forall|k: int| 0 <= k < before.len() && k != i ==> after[k] == before[k],
        after[i].0@ == p,
    ensures
        lookup(after, p) == Some(after[i].1@),
        forall|q: Seq<char>| q != p ==> lookup(after, q) == lookup(before, q),
    decreases i,
{
    lemma_lookup_first(after, p, i);
    if i > 0 {
        assert(after[0] == before[0]);
        lemma_lookup_update(before.drop_first(), p, i - 1, after.drop_first());
        assert forall|q: Seq<char>| q != p implies lookup(after, q) == lookup(before, q) by {
            if before[0].0@ != q {
                assert(lookup(after, q) == lookup(after.drop_first(), q));
                assert(lookup(before, q) == lookup(before.drop_first(), q));
            }
        }
    } else {
        assert forall|q: Seq<char>| q != p implies lookup(after, q) == lookup(before, q) by {
            assert(after.drop_first() =~= before.drop_first());
            assert(lookup(after, q) == lookup(after.drop_first(), q));
            assert(lookup(before, q) == lookup(before.drop_first(), q));
        }
    }
}

/// Reading after adding: the added path gives back the content, is listed
/// and counts as existing; every other path reads, exists and is listed as
/// before; a glob lists the same paths as before, followed by the added one
/// when it is new and matches.
pub proof fn law_read_after_add(
    before: MemoryFs,
    after: MemoryFs,
    p: Seq<char>,
    c: Seq<u8>,
    pats: Seq<Seq<char>>,
)
    requires
        after.file(p) == Some(c),
        forall|q: Seq<char>| q != p ==> after.file(q) == before.file(q),
        after.paths() == if before.paths().contains(p) {
            before.paths()
        } else {
            before.paths().push(p)
        },
    ensures
        after.file(p) == Some(c),
        after.paths().contains(p),
        forall|q: Seq<char>|
            q != p ==> after.file(q) == before.file(q) && (after.paths().contains(q)
                <==> before.paths().contains(q)),
        matching_paths(after.paths(), pats) == if before.paths().contains(p) || !glob_set_is_match(
            pats,
            p,
        ) {
            matching_paths(before.paths(), pats)
        } else {
            matching_paths(before.paths(), pats).push(p)
        },
{
    let b = before.paths();
    if !b.contains(p) {
        let a = b.push(p);
        assert(a.drop_last() == b);
        assert(a[a.len() - 1] == p);
        assert forall|q: Seq<char>| q != p implies (a.contains(q) <==> b.contains(q)) by {
            if a.contains(q) {
                let k = choose|k: int| 0 <= k < a.len() && a[k] == q;
                assert(k < b.len());
                assert(b[k] == q);
            }
            if b.contains(q) {
                let k = choose|k: int| 0 <= k < b.len() && b[k] == q;
                assert(a[k] == q);
            }
        }
    }
}

} // verus!
