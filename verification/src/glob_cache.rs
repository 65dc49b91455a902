//! Incremental glob cache: only re-walks directories that changed.
//!
//! Strategy:
//! - Cache the file list of each directory with the directory's mtime.
//! - On check, stat the cached directories; re-walk only those whose mtime
//!   changed, keep the others' cached files, and drop the removed ones.
//! - Add directories that the patterns reach and the cache does not know.
//!
//! Statting, walking and globbing are the caller's; the decisions and the
//! resulting cache are here.
use vstd::prelude::*;

use crate::text::{chars_of, str_eq, to_owned_string};

verus! {

/// Files of one directory that matched the patterns, with its mtime.
#[derive(Debug, Clone)]
pub struct DirEntry {
    /// Directory mtime (seconds since epoch)
    pub mtime: u64,
    /// Files in this directory that matched the pattern
    pub files: Vec<String>,
}

/// Incremental glob cache with per-directory tracking.
#[derive(Debug, Clone)]
pub struct IncrementalGlobCache {
    /// Hash of the glob patterns (detects configuration changes)
    pub patterns_hash: u64,
    /// Per-directory cache, by directory path
    pub dirs: Vec<(String, DirEntry)>,
}

/// What statting a cached directory found.
#[derive(Debug, Clone, Copy, PartialEq, Eq, Structural)]
pub enum DirStatus {
    Unchanged,
    /// Changed, with its current mtime
    Changed(u64),
    Removed,
}

/// Counts for debugging.
#[derive(Debug, Clone, Copy, Default)]
pub struct GlobStats {
    pub dirs_cached: usize,
    pub dirs_walked: usize,
    pub files_from_cache: usize,
    pub files_from_walk: usize,
}

/// Result of an incremental glob.
#[derive(Debug, Clone)]
pub struct IncrementalGlobResult {
    /// All matching files (merged from cache and fresh walks)
    pub files: Vec<String>,
    /// Updated cache to store
    pub cache: IncrementalGlobCache,
    /// Stats for debugging
    pub stats: GlobStats,
}

pub open spec fn views(v: Seq<String>) -> Seq<Seq<char>> {
    v.map_values(|s: String| s@)
}

/// A directory of the cache: its path, its mtime and its files.
pub open spec fn dir_view(e: (String, DirEntry)) -> (Seq<char>, u64, Seq<Seq<char>>) {
    (e.0@, e.1.mtime, views(e.1.files@))
}

pub open spec fn dirs_view(d: Seq<(String, DirEntry)>) -> Seq<(Seq<char>, u64, Seq<Seq<char>>)> {
    d.map_values(|e: (String, DirEntry)| dir_view(e))
}

/// The status of a cached directory given its current mtime (`None` when it
/// cannot be read).
pub open spec fn status_of(cached_mtime: u64, current: Option<u64>) -> DirStatus {
    match current {
        Some(m) => if m == cached_mtime {
            DirStatus::Unchanged
        } else {
            DirStatus::Changed(m)
        },
        None => DirStatus::Removed,
    }
}

/// The files that the first `n` checked directories contribute: cached
/// ones for unchanged directories, walked ones for changed directories.
pub open spec fn merged_files(
    dirs: Seq<(String, DirEntry)>,
    sts: Seq<DirStatus>,
    walked: Seq<Vec<String>>,
    n: int,
) -> Seq<Seq<char>>
    decreases n,
{
    if n <= 0 {
        Seq::empty()
    } else {
        merged_files(dirs, sts, walked, n - 1) + match sts[n - 1] {
            DirStatus::Unchanged => views(dirs[n - 1].1.files@),
            DirStatus::Changed(_) => views(walked[n - 1]@),
            DirStatus::Removed => Seq::empty(),
        }
    }
}

/// The directories that the first `n` checked directories leave in the
/// cache: unchanged ones as they were, changed ones with their new mtime
/// and walked files, removed ones dropped.
pub open spec fn merged_dirs(
    dirs: Seq<(String, DirEntry)>,
    sts: Seq<DirStatus>,
    walked: Seq<Vec<String>>,
    n: int,
) -> Seq<(Seq<char>, u64, Seq<Seq<char>>)>
    decreases n,
{
    if n <= 0 {
        Seq::empty()
    } else {
        let rest = merged_dirs(dirs, sts, walked, n - 1);
        match sts[n - 1] {
            DirStatus::Unchanged => rest.push(dir_view(dirs[n - 1])),
            DirStatus::Changed(m) => rest.push((dirs[n - 1].0@, m, views(walked[n - 1]@))),
            DirStatus::Removed => rest,
        }
    }
}

/// How many of the first `n` statuses are `Unchanged` (or `Changed`).
pub open spec fn count_status(sts: Seq<DirStatus>, changed: bool, n: int) -> nat
    decreases n,
{
    if n <= 0 {
        0
    } else {
        count_status(sts, changed, n - 1) + if (if changed {
            sts[n - 1] is Changed
        } else {
            sts[n - 1] is Unchanged
        }) {
            1nat
        } else {
            0nat
        }
    }
}

/// How many files the first `n` unchanged (or changed) directories contribute.
pub open spec fn count_files(
    dirs: Seq<(String, DirEntry)>,
    sts: Seq<DirStatus>,
    walked: Seq<Vec<String>>,
    changed: bool,
    n: int,
) -> nat
    decreases n,
{
    if n <= 0 {
        0
    } else {
        count_files(dirs, sts, walked, changed, n - 1) + if changed && sts[n - 1] is Changed {
            walked[n - 1]@.len()
        } else if !changed && sts[n - 1] is Unchanged {
            dirs[n - 1].1.files@.len()
        } else {
            0
        }
    }
}

proof fn lemma_counts_bounded(
    dirs: Seq<(String, DirEntry)>,
    sts: Seq<DirStatus>,
    walked: Seq<Vec<String>>,
    n: int,
)
    requires
        0 <= n <= sts.len(),
    ensures
        count_status(sts, true, n) + count_status(sts, false, n) <= n,
        count_files(dirs, sts, walked, true, n) + count_files(dirs, sts, walked, false, n)
            == merged_files(dirs, sts, walked, n).len(),
    decreases n,
{
    if n > 0 {
        lemma_counts_bounded(dirs, sts, walked, n - 1);
    }
}

fn clone_strings(v: &Vec<String>) -> (r: Vec<String>)
    ensures
        views(r@) == views(v@),
{
    let mut r: Vec<String> = Vec::new();
    let mut i: usize = 0;
    while i < v.len()
        invariant
            i <= v@.len(),
            views(r@) == views(v@.subrange(0, i as int)),
        decreases v@.len() - i,
    {
        let ghost before = r@;
        r.push(v[i].clone());
        proof {
            assert(views(r@) =~= views(before).push(v@[i as int]@));
            assert(views(v@.subrange(0, i + 1)) =~= views(v@.subrange(0, i as int)).push(v@[i as int]@));
        }
        i = i + 1;
    }
    proof {
        assert(v@.subrange(0, i as int) =~= v@);
    }
    r
}

/// Appends copies of the strings.
fn extend_strings(out: &mut Vec<String>, v: &Vec<String>)
    ensures
        views(final(out)@) == views(old(out)@) + views(v@),
{
    let mut i: usize = 0;
    while i < v.len()
        invariant
            i <= v@.len(),
            views(out@) == views(old(out)@) + views(v@.subrange(0, i as int)),
        decreases v@.len() - i,
    {
        let ghost before = out@;
        out.push(v[i].clone());
        proof {
            assert(views(out@) =~= views(before).push(v@[i as int]@));
            assert(views(v@.subrange(0, i + 1)) =~= views(v@.subrange(0, i as int)).push(v@[i as int]@));
            assert(views(out@) =~= views(old(out)@) + views(v@.subrange(0, i + 1)));
        }
        i = i + 1;
    }
    proof {
        assert(v@.subrange(0, i as int) =~= v@);
    }
}

impl IncrementalGlobCache {
    /// An empty cache.
    pub fn new() -> (r: Self)
        ensures
            r.patterns_hash == 0,
            r.dirs@.len() == 0,
    {
        IncrementalGlobCache { patterns_hash: 0, dirs: Vec::new() }
    }

    /// Whether the patterns are those the cache was built for (given the hash
    /// of the patterns); when not, a full glob is needed.
    pub fn patterns_match(&self, patterns_hash: u64) -> (r: bool)
        ensures
            r == (self.patterns_hash == patterns_hash),
    {
        self.patterns_hash == patterns_hash
    }

    /// The status of the `i`-th cached directory given its current mtime.
    pub fn dir_status(&self, i: usize, current_mtime: Option<u64>) -> (r: DirStatus)
        requires
            i < self.dirs@.len(),
        ensures
            r == status_of(self.dirs@[i as int].1.mtime, current_mtime),
    {
        match current_mtime {
            Some(m) => {
                if m == self.dirs[i].1.mtime {
                    DirStatus::Unchanged
                } else {
                    DirStatus::Changed(m)
                }
            },
            None => DirStatus::Removed,
        }
    }

    /// Merges the checked directories: `statuses[i]` is what statting the
    /// `i`-th cached directory found, and `walked[i]` the files a re-walk of
    /// it found (used only when it changed).
    pub fn merge(&self, patterns_hash: u64, statuses: &Vec<DirStatus>, walked: &Vec<Vec<String>>) -> (r:
        IncrementalGlobResult)
        requires
            statuses@.len() == self.dirs@.len(),
            walked@.len() == self.dirs@.len(),
            merged_files(self.dirs@, statuses@, walked@, statuses@.len() as int).len() <= usize::MAX,
        ensures
            r.cache.patterns_hash == patterns_hash,
            views(r.files@) == merged_files(self.dirs@, statuses@, walked@, statuses@.len() as int),
            dirs_view(r.cache.dirs@) == merged_dirs(self.dirs@, statuses@, walked@, statuses@.len() as int),
            r.stats.dirs_cached == count_status(statuses@, false, statuses@.len() as int),
            r.stats.dirs_walked == count_status(statuses@, true, statuses@.len() as int),
            r.stats.files_from_cache == count_files(self.dirs@, statuses@, walked@, false, statuses@.len() as int),
            r.stats.files_from_walk == count_files(self.dirs@, statuses@, walked@, true, statuses@.len() as int),
    {
        let ghost total = statuses@.len() as int;
        let ghost ds = self.dirs@;
        let ghost sts = statuses@;
        let ghost ws = walked@;
        let mut files: Vec<String> = Vec::new();
        let mut dirs: Vec<(String, DirEntry)> = Vec::new();
        let mut stats = GlobStats { dirs_cached: 0, dirs_walked: 0, files_from_cache: 0, files_from_walk: 0 };
        let mut i: usize = 0;
        while i < statuses.len()
            invariant
                ds == self.dirs@,
                sts == statuses@,
                ws == walked@,
                total == sts.len(),
                sts.len() == ds.len(),
                ws.len() == ds.len(),
                merged_files(ds, sts, ws, total).len() <= usize::MAX,
                i <= sts.len(),
                views(files@) == merged_files(ds, sts, ws, i as int),
                dirs_view(dirs@) == merged_dirs(ds, sts, ws, i as int),
                stats.dirs_cached == count_status(sts, false, i as int),
                stats.dirs_walked == count_status(sts, true, i as int),
                stats.files_from_cache == count_files(ds, sts, ws, false, i as int),
                stats.files_from_walk == count_files(ds, sts, ws, true, i as int),
            decreases sts.len() - i,
        {
            proof {
                lemma_counts_bounded(ds, sts, ws, i + 1);
                lemma_merged_files_grow(ds, sts, ws, i + 1, total);
            }
            let ghost before_dirs = dirs@;
            match statuses[i] {
                DirStatus::Unchanged => {
                    let cached = &self.dirs[i];
                    stats.dirs_cached = stats.dirs_cached + 1;
                    stats.files_from_cache = stats.files_from_cache + cached.1.files.len();
                    extend_strings(&mut files, &cached.1.files);
                    let entry = DirEntry { mtime: cached.1.mtime, files: clone_strings(&cached.1.files) };
                    dirs.push((cached.0.clone(), entry));
                    proof {
                        assert(dirs_view(dirs@) =~= dirs_view(before_dirs).push(dir_view(ds[i as int])));
                    }
                },
                DirStatus::Changed(mtime) => {
                    let found = &walked[i];
                    stats.dirs_walked = stats.dirs_walked + 1;
                    stats.files_from_walk = stats.files_from_walk + found.len();
                    extend_strings(&mut files, found);
                    let entry = DirEntry { mtime, files: clone_strings(found) };
                    dirs.push((self.dirs[i].0.clone(), entry));
                    proof {
                        assert(dirs_view(dirs@) =~= dirs_view(before_dirs).push(
                            (ds[i as int].0@, mtime, views(ws[i as int]@)),
                        ));
                    }
                },
                DirStatus::Removed => {},
            }
            i = i + 1;
        }
        IncrementalGlobResult { files, cache: IncrementalGlobCache { patterns_hash, dirs }, stats }
    }
}

proof fn lemma_merged_files_grow(
    dirs: Seq<(String, DirEntry)>,
    sts: Seq<DirStatus>,
    walked: Seq<Vec<String>>,
    i: int,
    n: int,
)
    requires
        0 <= i <= n,
    ensures
        merged_files(dirs, sts, walked, i).len() <= merged_files(dirs, sts, walked, n).len(),
    decreases n - i,
{
    if i < n {
        lemma_merged_files_grow(dirs, sts, walked, i, n - 1);
    }
}

/// Whether the cache knows the directory (a directory the walk discovers is
/// new when it does not).
pub fn knows_dir(cache: &IncrementalGlobCache, dir: &str) -> (r: bool)
    ensures
        r == exists|j: int| 0 <= j < cache.dirs@.len() && #[trigger] cache.dirs@[j].0@ == dir@,
{
    let mut j: usize = 0;
    while j < cache.dirs.len()
        invariant
            j <= cache.dirs@.len(),
            forall|k: int| 0 <= k < j ==> #[trigger] cache.dirs@[k].0@ != dir@,
        decreases cache.dirs@.len() - j,
    {
        if str_eq(cache.dirs[j].0.as_str(), dir) {
            return true;
        }
        j = j + 1;
    }
    false
}

/// Adds a directory that the walk discovered: its files are added to the
/// result, it counts as walked, and it is recorded in the cache (replacing
/// an entry of the same path).
pub fn add_discovered_dir(result: &mut IncrementalGlobResult, dir: &str, mtime: u64, files: &Vec<String>)
    requires
        old(result).stats.dirs_walked < usize::MAX,
        old(result).stats.files_from_walk + files@.len() <= usize::MAX,
    ensures
        views(final(result).files@) == views(old(result).files@) + views(files@),
        final(result).stats.dirs_walked == old(result).stats.dirs_walked + 1,
        final(result).stats.files_from_walk == old(result).stats.files_from_walk + files@.len(),
        final(result).stats.dirs_cached == old(result).stats.dirs_cached,
        final(result).stats.files_from_cache == old(result).stats.files_from_cache,
        final(result).cache.patterns_hash == old(result).cache.patterns_hash,
        (exists|j: int| 0 <= j < old(result).cache.dirs@.len() && #[trigger] old(result).cache.dirs@[j].0@ == dir@)
            ==> 0 <= dir_index(dirs_view(old(result).cache.dirs@), dir@) && dirs_view(
            final(result).cache.dirs@,
        ) == dirs_view(old(result).cache.dirs@).update(
            dir_index(dirs_view(old(result).cache.dirs@), dir@),
            (dir@, mtime, views(files@)),
        ),
        !(exists|j: int| 0 <= j < old(result).cache.dirs@.len() && #[trigger] old(result).cache.dirs@[j].0@ == dir@)
            ==> dirs_view(final(result).cache.dirs@) == dirs_view(old(result).cache.dirs@).push(
            (dir@, mtime, views(files@)),
        ),
{
    result.stats.dirs_walked = result.stats.dirs_walked + 1;
    result.stats.files_from_walk = result.stats.files_from_walk + files.len();
    extend_strings(&mut result.files, files);
    let entry = DirEntry { mtime, files: clone_strings(files) };
    let ghost dirs_now = result.cache.dirs@;
    let mut j: usize = 0;
    while j < result.cache.dirs.len()
        invariant
            j <= result.cache.dirs@.len(),
            result.cache.dirs@ == dirs_now,
            dirs_now == old(result).cache.dirs@,
            entry.mtime == mtime,
            views(entry.files@) == views(files@),
            views(result.files@) == views(old(result).files@) + views(files@),
            result.stats.dirs_walked == old(result).stats.dirs_walked + 1,
            result.stats.files_from_walk == old(result).stats.files_from_walk + files@.len(),
            result.stats.dirs_cached == old(result).stats.dirs_cached,
            result.stats.files_from_cache == old(result).stats.files_from_cache,
            result.cache.patterns_hash == old(result).cache.patterns_hash,
            forall|k: int| 0 <= k < j ==> #[trigger] result.cache.dirs@[k].0@ != dir@,
        decreases result.cache.dirs@.len() - j,
    {
        if str_eq(result.cache.dirs[j].0.as_str(), dir) {
            proof {
                let v = dirs_view(dirs_now);
                assert forall|k: int| 0 <= k < j implies (#[trigger] v[k]).0 != dir@ by {
                    assert(v[k] == dir_view(dirs_now[k]));
                }
                assert(v[j as int] == dir_view(dirs_now[j as int]));
                lemma_dir_index_found(v, dir@, j as int);
            }
            result.cache.dirs.set(j, (to_owned_string(dir), entry));
            proof {
                assert(dirs_view(result.cache.dirs@) =~= dirs_view(dirs_now).update(
                    j as int,
                    (dir@, mtime, views(files@)),
                ));
            }
            return;
        }
        j = j + 1;
    }
    let ghost before = result.cache.dirs@;
    result.cache.dirs.push((to_owned_string(dir), entry));
    proof {
        assert(dirs_view(result.cache.dirs@) =~= dirs_view(before).push((dir@, mtime, views(files@))));
    }
}

// ── Full glob ──────────────────────────────────────────────────────────────

/// The patterns that a glob walks: all but the excluding ones.
pub open spec fn walked_patterns(ps: Seq<Seq<char>>) -> Seq<Seq<char>>
    decreases ps.len(),
{
    if ps.len() == 0 {
        Seq::empty()
    } else if ps.last().len() > 0 && ps.last()[0] == '!' {
        walked_patterns(ps.drop_last())
    } else {
        walked_patterns(ps.drop_last()).push(ps.last())
    }
}

/// The patterns that a glob walks: all but the excluding ones.
pub fn globbed_patterns<'a>(patterns: &Vec<&'a str>) -> (r: Vec<&'a str>)
    ensures
        r@.map_values(|p: &str| p@) == walked_patterns(patterns@.map_values(|p: &str| p@)),
{
    let ghost views = patterns@.map_values(|p: &str| p@);
    let mut r: Vec<&'a str> = Vec::new();
    let mut i: usize = 0;
    while i < patterns.len()
        invariant
            i <= patterns@.len(),
            views == patterns@.map_values(|p: &str| p@),
            r@.map_values(|p: &str| p@) == walked_patterns(views.subrange(0, i as int)),
        decreases patterns@.len() - i,
    {
        let p = patterns[i];
        let cs = chars_of(p);
        let ghost prefix = views.subrange(0, i + 1);
        proof {
            assert(prefix.drop_last() =~= views.subrange(0, i as int));
            assert(prefix.last() == p@);
        }
        if !(cs.len() > 0 && cs[0] == '!') {
            let ghost before = r@;
            r.push(p);
            proof {
                assert(r@.map_values(|p: &str| p@) =~= before.map_values(|p: &str| p@).push(p@));
            }
        }
        i = i + 1;
    }
    proof {
        assert(views.subrange(0, i as int) =~= views);
    }
    r
}

/// The path components that a full glob never reports files under.
pub open spec fn is_skipped_component(c: Seq<char>) -> bool {
    c == "node_modules"@ || c == ".git"@ || c == "target"@ || c == "__generated__"@
}

/// A path that a pattern's glob produced: whether it is a file, its
/// components, and its parent directory with that directory's mtime (0 when
/// it cannot be read).
#[derive(Debug, Clone)]
pub struct GlobHit {
    pub path: String,
    pub is_file: bool,
    pub components: Vec<String>,
    pub parent: Option<(String, u64)>,
}

/// Whether a full glob reports the hit: a file under no skipped component.
pub open spec fn reported(h: GlobHit) -> bool {
    h.is_file && forall|k: int| 0 <= k < h.components@.len() ==> !is_skipped_component(
        #[trigger] h.components@[k]@,
    )
}

/// The files a full glob reports, in order.
pub open spec fn reported_files(hits: Seq<GlobHit>) -> Seq<Seq<char>>
    decreases hits.len(),
{
    if hits.len() == 0 {
        Seq::empty()
    } else if reported(hits.last()) {
        reported_files(hits.drop_last()).push(hits.last().path@)
    } else {
        reported_files(hits.drop_last())
    }
}

fn is_reported(h: &GlobHit) -> (r: bool)
    ensures
        r == reported(*h),
{
    if !h.is_file {
        return false;
    }
    let mut k: usize = 0;
    while k < h.components.len()
        invariant
            h.is_file,
            k <= h.components@.len(),
            forall|j: int| 0 <= j < k ==> !is_skipped_component(#[trigger] h.components@[j]@),
        decreases h.components@.len() - k,
    {
        let c = h.components[k].as_str();
        if str_eq(c, "node_modules") || str_eq(c, ".git") || str_eq(c, "target") || str_eq(c, "__generated__") {
            return false;
        }
        k = k + 1;
    }
    true
}

pub type DirView = (Seq<char>, u64, Seq<Seq<char>>);

/// The index of the first directory entry for path `p`, or -1.
pub open spec fn dir_index(ds: Seq<DirView>, p: Seq<char>) -> int
    decreases ds.len(),
{
    if ds.len() == 0 {
        -1
    } else {
        let k = dir_index(ds.drop_last(), p);
        if k >= 0 {
            k
        } else if ds.last().0 == p {
            ds.len() - 1
        } else {
            -1
        }
    }
}

/// The directory entries after recording a reported file in its parent
/// directory: appended to the files of the parent's entry, or a new entry
/// with the parent's mtime when there is none yet.
pub open spec fn record_hit(ds: Seq<DirView>, parent: Seq<char>, mtime: u64, path: Seq<char>) -> Seq<DirView> {
    let k = dir_index(ds, parent);
    if k >= 0 {
        ds.update(k, (ds[k].0, ds[k].1, ds[k].2.push(path)))
    } else {
        ds.push((parent, mtime, seq![path]))
    }
}

/// The directory entries a full glob builds: each reported hit with a
/// parent is recorded in its parent's entry, in the order of the hits; an
/// entry's mtime is the one of the first hit in that directory.
pub open spec fn grouped_dirs(hits: Seq<GlobHit>) -> Seq<DirView>
    decreases hits.len(),
{
    if hits.len() == 0 {
        Seq::empty()
    } else {
        let ds = grouped_dirs(hits.drop_last());
        let h = hits.last();
        if reported(h) {
            match h.parent {
                Some((p, m)) => record_hit(ds, p@, m, h.path@),
                None => ds,
            }
        } else {
            ds
        }
    }
}

proof fn lemma_dir_index_found(ds: Seq<DirView>, p: Seq<char>, j: int)
    requires
        0 <= j < ds.len(),
        ds[j].0 == p,
        forall|k: int| 0 <= k < j ==> (#[trigger] ds[k]).0 != p,
    ensures
        dir_index(ds, p) == j,
    decreases ds.len(),
{
    if j < ds.len() - 1 {
        lemma_dir_index_found(ds.drop_last(), p, j);
    } else {
        lemma_dir_index_absent(ds.drop_last(), p);
    }
}

proof fn lemma_dir_index_absent(ds: Seq<DirView>, p: Seq<char>)
    requires
        forall|k: int| 0 <= k < ds.len() ==> (#[trigger] ds[k]).0 != p,
    ensures
        dir_index(ds, p) == -1,
    decreases ds.len(),
{
    if ds.len() > 0 {
        lemma_dir_index_absent(ds.drop_last(), p);
    }
}

/// A full glob (when the patterns changed or there is no cache): the files
/// among the hits, and a cache that groups them by parent directory.
pub fn full_glob(patterns_hash: u64, hits: &Vec<GlobHit>) -> (r: IncrementalGlobResult)
    ensures
        r.cache.patterns_hash == patterns_hash,
        views(r.files@) == reported_files(hits@),
        dirs_view(r.cache.dirs@) == grouped_dirs(hits@),
        r.stats.files_from_walk == r.files@.len(),
        r.stats.dirs_walked == r.cache.dirs@.len(),
        r.stats.dirs_cached == 0,
        r.stats.files_from_cache == 0,
        forall|j: int, k: int|
            0 <= j < k < r.cache.dirs@.len() ==> r.cache.dirs@[j].0@ != r.cache.dirs@[k].0@,
{
    let mut files: Vec<String> = Vec::new();
    let mut dirs: Vec<(String, DirEntry)> = Vec::new();
    let mut i: usize = 0;
    while i < hits.len()
        invariant
            i <= hits@.len(),
            files@.len() <= i,
            dirs@.len() <= i,
            views(files@) == reported_files(hits@.subrange(0, i as int)),
            dirs_view(dirs@) == grouped_dirs(hits@.subrange(0, i as int)),
            forall|j: int, k: int| 0 <= j < k < dirs@.len() ==> dirs@[j].0@ != dirs@[k].0@,
        decreases hits@.len() - i,
    {
        let hit = &hits[i];
        let ghost prefix = hits@.subrange(0, i + 1);
        let ghost before_view = dirs_view(dirs@);
        proof {
            assert(prefix.drop_last() =~= hits@.subrange(0, i as int));
            assert(prefix.last() == *hit);
        }
        if is_reported(hit) {
            match &hit.parent {
                Some((parent, mtime)) => {
                    let mut j: usize = 0;
                    let mut found = false;
                    while j < dirs.len() && !found
                        invariant
                            j <= dirs@.len(),
                            found ==> j < dirs@.len() && dirs@[j as int].0@ == parent@,
                            forall|k: int| 0 <= k < j ==> #[trigger] dirs@[k].0@ != parent@,
                        decreases dirs@.len() - j + if found {
                            0int
                        } else {
                            1int
                        },
                    {
                        if str_eq(dirs[j].0.as_str(), parent.as_str()) {
                            found = true;
                        } else {
                            j = j + 1;
                        }
                    }
                    if found {
                        proof {
                            assert forall|k: int| 0 <= k < j implies (#[trigger] before_view[k]).0 != parent@ by {
                                assert(before_view[k] == dir_view(dirs@[k]));
                            }
                            assert(before_view[j as int] == dir_view(dirs@[j as int]));
                            lemma_dir_index_found(before_view, parent@, j as int);
                        }
                        let ghost before = dirs@;
                        let mut entry_files = clone_strings(&dirs[j].1.files);
                        let ghost cloned = views(entry_files@);
                        entry_files.push(hit.path.clone());
                        proof {
                            assert(views(entry_files@) =~= cloned.push(hit.path@));
                        }
                        let entry = DirEntry { mtime: dirs[j].1.mtime, files: entry_files };
                        let name = dirs[j].0.clone();
                        dirs.set(j, (name, entry));
                        proof {
                            assert forall|k: int| 0 <= k < dirs@.len() implies dirs@[k].0@ == before[k].0@ by {}
                            assert(dirs_view(dirs@) =~= record_hit(before_view, parent@, *mtime, hit.path@));
                        }
                    } else {
                        proof {
                            assert forall|k: int| 0 <= k < before_view.len() implies (#[trigger] before_view[k]).0 != parent@ by {
                                assert(before_view[k] == dir_view(dirs@[k]));
                            }
                            lemma_dir_index_absent(before_view, parent@);
                        }
                        let mut entry_files: Vec<String> = Vec::new();
                        entry_files.push(hit.path.clone());
                        let ghost before = dirs@;
                        dirs.push((parent.clone(), DirEntry { mtime: *mtime, files: entry_files }));
                        proof {
                            assert forall|a: int, b: int| 0 <= a < b < dirs@.len() implies dirs@[a].0@ != dirs@[b].0@ by {
                                assert(dirs@[a] == before[a]);
                                if b == dirs@.len() - 1 {
                                    assert(dirs@[b].0@ == parent@);
                                } else {
                                    assert(dirs@[b] == before[b]);
                                }
                            }
                            assert(views(dirs@.last().1.files@) =~= seq![hit.path@]);
                            assert(dirs_view(dirs@) =~= record_hit(before_view, parent@, *mtime, hit.path@));
                        }
                    }
                },
                None => {},
            }
            let ghost before_files = files@;
            files.push(hit.path.clone());
            proof {
                assert(views(files@) =~= views(before_files).push(hit.path@));
            }
        }
        proof {
            assert(dirs_view(dirs@) == grouped_dirs(prefix));
        }
        i = i + 1;
    }
    proof {
        assert(hits@.subrange(0, i as int) =~= hits@);
    }
    let n_files = files.len();
    let n_dirs = dirs.len();
    IncrementalGlobResult {
        files,
        cache: IncrementalGlobCache { patterns_hash, dirs },
        stats: GlobStats { dirs_cached: 0, dirs_walked: n_dirs, files_from_cache: 0, files_from_walk: n_files },
    }
}

/// Whether a file with extension `ext` matches one of the patterns the way
/// a directory re-walk checks it: a pattern that is not excluding and either
/// holds `*.ext` or ends with `*`.
pub open spec fn walk_matches(ext: Seq<char>, ps: Seq<Seq<char>>) -> bool {
    exists|k: int|
        0 <= k < ps.len() && !(ps[k].len() > 0 && ps[k][0] == '!') && (contains_text(
            #[trigger] ps[k],
            "*."@ + ext,
        ) || (ps[k].len() > 0 && ps[k].last() == '*'))
}

/// Whether `n` occurs in `h`.
pub open spec fn contains_text(h: Seq<char>, n: Seq<char>) -> bool {
    exists|i: int| 0 <= i && i + n.len() <= h.len() && #[trigger] h.subrange(i, i + n.len()) == n
}

fn contains_chars(h: &Vec<char>, n: &Vec<char>) -> (r: bool)
    ensures
        r == contains_text(h@, n@),
{
    let hl = h.len();
    let nl = n.len();
    if nl == 0 {
        proof {
            assert(h@.subrange(0, 0 + n@.len() as int) =~= n@);
        }
        return true;
    }
    if nl > hl {
        proof {
            assert(!contains_text(h@, n@));
        }
        return false;
    }
    let mut i: usize = 0;
    while i <= hl - nl
        invariant
            hl == h@.len(),
            nl == n@.len(),
            0 < nl <= hl,
            i <= hl - nl + 1,
            forall|j: int| 0 <= j < i ==> #[trigger] h@.subrange(j, j + nl) != n@,
        decreases hl - nl + 1 - i,
    {
        let mut k: usize = 0;
        let mut same = true;
        while k < nl && same
            invariant
                hl == h@.len(),
                nl == n@.len(),
                i + nl <= hl,
                k <= nl,
                same ==> forall|j: int| 0 <= j < k ==> h@[i + j] == n@[j],
                !same ==> h@.subrange(i as int, i + nl) != n@,
            decreases nl - k + if same {
                1int
            } else {
                0int
            },
        {
            if h[i + k] != n[k] {
                same = false;
                proof {
                    assert(h@.subrange(i as int, i + nl)[k as int] != n@[k as int]);
                }
            } else {
                k = k + 1;
            }
        }
        if same {
            proof {
                assert(h@.subrange(i as int, i + nl) =~= n@);
            }
            return true;
        }
        i = i + 1;
    }
    proof {
        assert forall|j: int| 0 <= j && j + nl <= hl implies #[trigger] h@.subrange(j, j + nl) != n@ by {
            assert(j < i);
        }
    }
    false
}

/// Whether a re-walk keeps a file with this extension.
pub fn walk_keeps(ext: &str, patterns: &Vec<&str>) -> (r: bool)
    ensures
        r == walk_matches(ext@, patterns@.map_values(|p: &str| p@)),
{
    let ghost ps = patterns@.map_values(|p: &str| p@);
    let mut needle: Vec<char> = Vec::new();
    needle.push('*');
    needle.push('.');
    let ecs = chars_of(ext);
    let mut e: usize = 0;
    while e < ecs.len()
        invariant
            e <= ecs@.len(),
            needle@ == seq!['*', '.'] + ecs@.subrange(0, e as int),
        decreases ecs@.len() - e,
    {
        needle.push(ecs[e]);
        proof {
            assert(needle@ =~= seq!['*', '.'] + ecs@.subrange(0, e + 1));
        }
        e = e + 1;
    }
    proof {
        reveal_strlit("*.");
        assert(ecs@.subrange(0, e as int) =~= ext@);
        assert(needle@ =~= "*."@ + ext@);
    }
    let mut k: usize = 0;
    while k < patterns.len()
        invariant
            k <= patterns@.len(),
            ps == patterns@.map_values(|p: &str| p@),
            needle@ == "*."@ + ext@,
            forall|j: int|
                0 <= j < k ==> !(!(ps[j].len() > 0 && ps[j][0] == '!') && (contains_text(
                    #[trigger] ps[j],
                    "*."@ + ext@,
                ) || (ps[j].len() > 0 && ps[j].last() == '*'))),
        decreases patterns@.len() - k,
    {
        let pcs = chars_of(patterns[k]);
        assert(pcs@ == ps[k as int]);
        let negated = pcs.len() > 0 && pcs[0] == '!';
        let ends_star = pcs.len() > 0 && pcs[pcs.len() - 1] == '*';
        if !negated && (contains_chars(&pcs, &needle) || ends_star) {
            return true;
        }
        k = k + 1;
    }
    false
}

} // verus!
