//! Caching decisions for incremental code generation.
//!
//! Two phases:
//! 1. Metadata check (fast, stat only): when every input file has the size
//!    and modification time recorded last time, nothing needs loading.
//! 2. Content hash: when the hashes of the loaded inputs and of the
//!    configuration equal the recorded ones, the outputs are fresh.
//!
//! Reading the file system, hashing and persisting the cache are left to the
//! caller; the decisions and the recorded state are here.
use vstd::prelude::*;

use crate::text::{chars_of, str_eq, to_owned_string};

verus! {

/// File metadata for fast change detection (no content read needed).
#[derive(Debug, Clone, Copy, PartialEq, Eq, Structural)]
pub struct FileMeta {
    pub mtime_secs: u64,
    pub size: u64,
}

/// What the cache records after a successful generation.
#[derive(Debug, Clone)]
pub struct CacheData {
    /// Combined hash of all input file contents
    pub inputs_hash: u64,
    /// Hash of config options
    pub config_hash: u64,
    /// Per-file metadata for fast change detection, by path
    pub file_meta: Vec<(String, FileMeta)>,
}

impl Default for CacheData {
    fn default() -> (r: Self)
        ensures
            r.inputs_hash == 0,
            r.config_hash == 0,
            r.file_meta@.len() == 0,
    {
        CacheData { inputs_hash: 0, config_hash: 0, file_meta: Vec::new() }
    }
}

/// Result of the metadata check.
#[derive(Debug, Clone, Copy, PartialEq, Eq, Structural)]
pub enum MetadataCheckResult {
    /// All metadata matches - likely cache hit (skip loading)
    AllMatch,
    /// Some metadata changed - need to load and verify
    Changed,
    /// No previous cache data
    NoPrevious,
}

/// The metadata recorded for path `p`: that of its first entry.
pub open spec fn first_meta(entries: Seq<(String, FileMeta)>, p: Seq<char>) -> Option<FileMeta>
    decreases entries.len(),
{
    if entries.len() == 0 {
        None
    } else if entries[0].0@ == p {
        Some(entries[0].1)
    } else {
        first_meta(entries.drop_first(), p)
    }
}

/// Whether path `p` is recorded among the entries.
pub open spec fn recorded(entries: Seq<(String, FileMeta)>, p: Seq<char>) -> bool {
    exists|j: int| 0 <= j < entries.len() && entries[j].0@ == p
}

/// Whether path `p` is among the paths.
pub open spec fn listed(paths: Seq<String>, p: Seq<char>) -> bool {
    exists|i: int| 0 <= i < paths.len() && paths[i]@ == p
}

/// Whether the paths and the recorded entries name the same set of files.
pub open spec fn same_paths(paths: Seq<String>, entries: Seq<(String, FileMeta)>) -> bool {
    &&& forall|i: int| 0 <= i < paths.len() ==> #[trigger] recorded(entries, paths[i]@)
    &&& forall|j: int| 0 <= j < entries.len() ==> #[trigger] listed(paths, entries[j].0@)
}

/// The outcome of the metadata check, given the current metadata of each
/// path (`None` where it cannot be read).
pub open spec fn metadata_outcome(
    paths: Seq<String>,
    current: Seq<Option<FileMeta>>,
    previous: Option<CacheData>,
) -> MetadataCheckResult {
    match previous {
        None => MetadataCheckResult::NoPrevious,
        Some(prev) => if !same_paths(paths, prev.file_meta@) {
            MetadataCheckResult::Changed
        } else if forall|i: int|
            0 <= i < paths.len() ==> current[i] is Some && #[trigger] first_meta(
                prev.file_meta@,
                paths[i]@,
            ) == current[i] {
            MetadataCheckResult::AllMatch
        } else {
            MetadataCheckResult::Changed
        },
    }
}

/// Whether `p` is among the paths.
fn has_path(paths: &Vec<String>, p: &str) -> (r: bool)
    ensures
        r == listed(paths@, p@),
{
    let mut i: usize = 0;
    while i < paths.len()
        invariant
            i <= paths@.len(),
            forall|k: int| 0 <= k < i ==> #[trigger] paths@[k]@ != p@,
        decreases paths@.len() - i,
    {
        if str_eq(paths[i].as_str(), p) {
            return true;
        }
        i = i + 1;
    }
    false
}

/// Whether `p` is recorded among the entries.
fn has_entry(entries: &Vec<(String, FileMeta)>, p: &str) -> (r: bool)
    ensures
        r == recorded(entries@, p@),
{
    let mut j: usize = 0;
    while j < entries.len()
        invariant
            j <= entries@.len(),
            forall|k: int| 0 <= k < j ==> #[trigger] entries@[k].0@ != p@,
        decreases entries@.len() - j,
    {
        if str_eq(entries[j].0.as_str(), p) {
            return true;
        }
        j = j + 1;
    }
    false
}

/// The metadata recorded for `p`.
fn find_meta(entries: &Vec<(String, FileMeta)>, p: &str) -> (r: Option<FileMeta>)
    ensures
        r == first_meta(entries@, p@),
{
    let mut j: usize = 0;
    assert(entries@.subrange(0, entries@.len() as int) =~= entries@);
    while j < entries.len()
        invariant
            j <= entries@.len(),
            first_meta(entries@, p@) == first_meta(entries@.subrange(j as int, entries@.len() as int), p@),
        decreases entries@.len() - j,
    {
        let ghost rest = entries@.subrange(j as int, entries@.len() as int);
        assert(rest.drop_first() =~= entries@.subrange(j + 1, entries@.len() as int));
        if str_eq(entries[j].0.as_str(), p) {
            return Some(entries[j].1);
        }
        j = j + 1;
    }
    None
}

/// The metadata check: no previous data, a changed set of files, or whether
/// every file's current metadata equals the recorded one.
///
/// `current[i]` is the metadata of `paths[i]` read now, `None` where it
/// cannot be read.
pub fn check_metadata(
    paths: &Vec<String>,
    current: &Vec<Option<FileMeta>>,
    previous: Option<&CacheData>,
) -> (r: MetadataCheckResult)
    requires
        current@.len() == paths@.len(),
    ensures
        r == metadata_outcome(paths@, current@, match previous {
            Some(p) => Some(*p),
            None => None,
        }),
{
    let prev = match previous {
        None => {
            return MetadataCheckResult::NoPrevious;
        },
        Some(p) => p,
    };
    let mut i: usize = 0;
    while i < paths.len()
        invariant
            previous == Some(prev),
            current@.len() == paths@.len(),
            i <= paths@.len(),
            forall|k: int| 0 <= k < i ==> #[trigger] recorded(prev.file_meta@, paths@[k]@),
        decreases paths@.len() - i,
    {
        if !has_entry(&prev.file_meta, paths[i].as_str()) {
            proof {
                assert(!same_paths(paths@, prev.file_meta@));
                assert(metadata_outcome(paths@, current@, Some(*prev)) == MetadataCheckResult::Changed);
            }
            return MetadataCheckResult::Changed;
        }
        i = i + 1;
    }
    let mut j: usize = 0;
    while j < prev.file_meta.len()
        invariant
            previous == Some(prev),
            current@.len() == paths@.len(),
            j <= prev.file_meta@.len(),
            forall|k: int| 0 <= k < paths@.len() ==> #[trigger] recorded(prev.file_meta@, paths@[k]@),
            forall|k: int| 0 <= k < j ==> #[trigger] listed(paths@, prev.file_meta@[k].0@),
        decreases prev.file_meta@.len() - j,
    {
        if !has_path(paths, prev.file_meta[j].0.as_str()) {
            proof {
                assert(!same_paths(paths@, prev.file_meta@));
                assert(metadata_outcome(paths@, current@, Some(*prev)) == MetadataCheckResult::Changed);
            }
            return MetadataCheckResult::Changed;
        }
        j = j + 1;
    }
    assert(same_paths(paths@, prev.file_meta@));
    let mut i: usize = 0;
    while i < paths.len()
        invariant
            previous == Some(prev),
            current@.len() == paths@.len(),
            i <= paths@.len(),
            current@.len() == paths@.len(),
            same_paths(paths@, prev.file_meta@),
            forall|k: int|
                0 <= k < i ==> current@[k] is Some && #[trigger] first_meta(prev.file_meta@, paths@[k]@)
                    == current@[k],
        decreases paths@.len() - i,
    {
        let recorded = find_meta(&prev.file_meta, paths[i].as_str());
        let matches = match (recorded, current[i]) {
            (Some(a), Some(b)) => a.mtime_secs == b.mtime_secs && a.size == b.size,
            _ => false,
        };
        if !matches {
            proof {
                assert(!(current@[i as int] is Some && first_meta(prev.file_meta@, paths@[i as int]@)
                    == current@[i as int]));
                assert(metadata_outcome(paths@, current@, Some(*prev)) == MetadataCheckResult::Changed);
            }
            return MetadataCheckResult::Changed;
        }
        i = i + 1;
    }
    MetadataCheckResult::AllMatch
}

/// Whether computed hashes equal the recorded ones.
pub open spec fn fresh_against(stored: Option<CacheData>, computed: CacheData) -> bool {
    match stored {
        Some(s) => s.inputs_hash == computed.inputs_hash && s.config_hash == computed.config_hash,
        None => false,
    }
}

fn is_fresh_against(stored: &Option<CacheData>, computed: &CacheData) -> (r: bool)
    ensures
        r == fresh_against(*stored, *computed),
{
    match stored {
        Some(s) => s.inputs_hash == computed.inputs_hash && s.config_hash == computed.config_hash,
        None => false,
    }
}

// ── In-memory cache ────────────────────────────────────────────────────────

/// In-memory cache - useful for testing.
pub struct MemoryCache {
    stored: Option<CacheData>,
}

impl MemoryCache {
    /// The recorded data.
    pub closed spec fn data(&self) -> Option<CacheData> {
        self.stored
    }

    pub fn new() -> (r: Self)
        ensures
            r.data() is None,
    {
        MemoryCache { stored: None }
    }

    /// The metadata check against the recorded data.
    pub fn check_metadata(&self, paths: &Vec<String>, current: &Vec<Option<FileMeta>>) -> (r: MetadataCheckResult)
        requires
            current@.len() == paths@.len(),
        ensures
            r == metadata_outcome(paths@, current@, self.data()),
    {
        check_metadata(paths, current, self.stored.as_ref())
    }

    /// Whether computed hashes equal the recorded ones.
    pub fn is_fresh(&self, computed: &CacheData) -> (r: bool)
        ensures
            r == fresh_against(self.data(), *computed),
    {
        is_fresh_against(&self.stored, computed)
    }

    /// Records data after a successful generation.
    pub fn store(&mut self, data: CacheData)
        ensures
            final(self).data() == Some(data),
    {
        self.stored = Some(data);
    }

    /// The recorded data.
    pub fn stored(&self) -> (r: Option<&CacheData>)
        ensures
            match r {
                Some(d) => self.data() == Some(*d),
                None => self.data() is None,
            },
    {
        self.stored.as_ref()
    }

    /// Forgets the recorded data; tells whether there was any.
    pub fn clear(&mut self) -> (r: bool)
        ensures
            r == old(self).data() is Some,
            final(self).data() is None,
    {
        let had_data = self.stored.is_some();
        self.stored = None;
        had_data
    }
}

impl Default for MemoryCache {
    fn default() -> (r: Self)
        ensures
            r.data() is None,
    {
        MemoryCache::new()
    }
}

// ── No-op cache ────────────────────────────────────────────────────────────

/// No-op cache - always reports as stale (forces regeneration).
pub struct NoCache;

impl NoCache {
    pub fn check_metadata(&self, paths: &Vec<String>, current: &Vec<Option<FileMeta>>) -> (r: MetadataCheckResult)
        ensures
            r == MetadataCheckResult::NoPrevious,
    {
        MetadataCheckResult::NoPrevious
    }

    pub fn is_fresh(&self, computed: &CacheData) -> (r: bool)
        ensures
            !r,
    {
        false
    }

    pub fn store(&mut self, data: CacheData) {
    }

    pub fn stored(&self) -> (r: Option<&CacheData>)
        ensures
            r is None,
    {
        None
    }

    /// Nothing to clear.
    pub fn clear(&mut self) -> (r: bool)
        ensures
            !r,
    {
        false
    }
}

// ── File-system cache ──────────────────────────────────────────────────────

/// File-system cache: the data recorded in `cache.json` under a directory.
///
/// The caller loads the file when the cache is made, and writes it (or
/// removes the directory) before recording (or forgetting) the data here.
pub struct FsCache {
    cache_dir: String,
    stored: Option<CacheData>,
}

impl FsCache {
    pub closed spec fn data(&self) -> Option<CacheData> {
        self.stored
    }

    pub closed spec fn dir(&self) -> Seq<char> {
        self.cache_dir@
    }

    /// A cache under `cache_dir` holding the data loaded from it, if any.
    pub fn new(cache_dir: &str, loaded: Option<CacheData>) -> (r: Self)
        ensures
            r.dir() == cache_dir@,
            r.data() == loaded,
    {
        FsCache { cache_dir: to_owned_string(cache_dir), stored: loaded }
    }

    pub fn cache_dir(&self) -> (r: &str)
        ensures
            r@ == self.dir(),
    {
        self.cache_dir.as_str()
    }

    pub fn check_metadata(&self, paths: &Vec<String>, current: &Vec<Option<FileMeta>>) -> (r: MetadataCheckResult)
        requires
            current@.len() == paths@.len(),
        ensures
            r == metadata_outcome(paths@, current@, self.data()),
    {
        check_metadata(paths, current, self.stored.as_ref())
    }

    pub fn is_fresh(&self, computed: &CacheData) -> (r: bool)
        ensures
            r == fresh_against(self.data(), *computed),
    {
        is_fresh_against(&self.stored, computed)
    }

    /// Records data once it has been written.
    pub fn store(&mut self, data: CacheData)
        ensures
            final(self).data() == Some(data),
            final(self).dir() == old(self).dir(),
    {
        self.stored = Some(data);
    }

    pub fn stored(&self) -> (r: Option<&CacheData>)
        ensures
            match r {
                Some(d) => self.data() == Some(*d),
                None => self.data() is None,
            },
    {
        self.stored.as_ref()
    }

    /// Forgets the recorded data once the directory is gone.
    pub fn clear(&mut self)
        ensures
            final(self).data() is None,
            final(self).dir() == old(self).dir(),
    {
        self.stored = None;
    }
}

// ── Laws ───────────────────────────────────────────────────────────────────

/// After data is stored, hashes are fresh exactly when both equal the
/// stored ones.
pub proof fn law_store_then_fresh(stored: CacheData, computed: CacheData)
    ensures
        fresh_against(Some(stored), computed) <==> (stored.inputs_hash == computed.inputs_hash
            && stored.config_hash == computed.config_hash),
        fresh_against(Some(stored), stored),
{
}

/// Without recorded data nothing is fresh and the metadata check reports
/// that there is no previous data.
pub proof fn law_nothing_recorded_is_stale(
    paths: Seq<String>,
    current: Seq<Option<FileMeta>>,
    computed: CacheData,
)
    ensures
        !fresh_against(None, computed),
        metadata_outcome(paths, current, None) == MetadataCheckResult::NoPrevious,
{
}

/// When the metadata of every recorded file is read back unchanged, the
/// metadata check reports a match.
pub proof fn law_unchanged_files_match(prev: CacheData)
    requires
        forall|j: int, k: int|
            0 <= j < k < prev.file_meta@.len() ==> prev.file_meta@[j].0@ != prev.file_meta@[k].0@,
    ensures
        metadata_outcome(
            prev.file_meta@.map_values(|e: (String, FileMeta)| e.0),
            prev.file_meta@.map_values(|e: (String, FileMeta)| Some(e.1)),
            Some(prev),
        ) == MetadataCheckResult::AllMatch,
{
    let es = prev.file_meta@;
    let paths = es.map_values(|e: (String, FileMeta)| e.0);
    let current = es.map_values(|e: (String, FileMeta)| Some(e.1));
    assert forall|i: int| 0 <= i < paths.len() implies current[i] is Some && #[trigger] first_meta(
        es,
        paths[i]@,
    ) == current[i] by {
        lemma_first_meta_distinct(es, i);
    }
    assert(same_paths(paths, es)) by {
        assert forall|i: int| 0 <= i < paths.len() implies #[trigger] recorded(es, paths[i]@) by {
            assert(es[i].0@ == paths[i]@);
        }
        assert forall|j: int| 0 <= j < es.len() implies #[trigger] listed(paths, es[j].0@) by {
            assert(paths[j]@ == es[j].0@);
        }
    }
}

proof fn lemma_first_meta_distinct(es: Seq<(String, FileMeta)>, i: int)
    requires
        0 <= i < es.len(),
        forall|j: int, k: int| 0 <= j < k < es.len() ==> es[j].0@ != es[k].0@,
    ensures
        first_meta(es, es[i].0@) == Some(es[i].1),
    decreases i,
{
    if i > 0 {
        let rest = es.drop_first();
        assert(es[0].0@ != es[i].0@);
        assert(rest[i - 1] == es[i]);
        lemma_first_meta_distinct(rest, i - 1);
    }
}

// ── Building the recorded state ────────────────────────────────────────────

/// Whether `a` comes no later than `b` in the order of their characters,
/// a prefix first.
pub open spec fn text_le(a: Seq<char>, b: Seq<char>) -> bool
    decreases a.len(),
{
    if a.len() == 0 {
        true
    } else if b.len() == 0 {
        false
    } else if a[0] != b[0] {
        a[0] < b[0]
    } else {
        text_le(a.drop_first(), b.drop_first())
    }
}

proof fn lemma_text_le_total(a: Seq<char>, b: Seq<char>)
    ensures
        text_le(a, b) || text_le(b, a),
    decreases a.len(),
{
    if a.len() > 0 && b.len() > 0 && a[0] == b[0] {
        lemma_text_le_total(a.drop_first(), b.drop_first());
    }
}

proof fn lemma_text_le_trans(a: Seq<char>, b: Seq<char>, c: Seq<char>)
    requires
        text_le(a, b),
        text_le(b, c),
    ensures
        text_le(a, c),
    decreases a.len(),
{
    if a.len() > 0 && b.len() > 0 && c.len() > 0 && a[0] == b[0] && b[0] == c[0] {
        lemma_text_le_trans(a.drop_first(), b.drop_first(), c.drop_first());
    }
}

/// Whether `a` comes no later than `b`, character by character.
pub fn text_le_exec(a: &str, b: &str) -> (r: bool)
    ensures
        r == text_le(a@, b@),
{
    let x = chars_of(a);
    let y = chars_of(b);
    let mut i: usize = 0;
    proof {
        assert(a@.skip(0) =~= a@);
        assert(b@.skip(0) =~= b@);
    }
    while i < x.len() && i < y.len()
        invariant
            x@ == a@,
            y@ == b@,
            i <= x@.len(),
            i <= y@.len(),
            text_le(a@, b@) == text_le(a@.skip(i as int), b@.skip(i as int)),
        decreases x@.len() - i,
    {
        let c = x[i];
        let d = y[i];
        proof {
            assert(a@.skip(i as int)[0] == c);
            assert(b@.skip(i as int)[0] == d);
        }
        if c != d {
            return c < d;
        }
        proof {
            assert(a@.skip(i as int).drop_first() =~= a@.skip(i + 1));
            assert(b@.skip(i as int).drop_first() =~= b@.skip(i + 1));
        }
        i = i + 1;
    }
    i == x.len()
}

/// The pairs as plain values: path and hash.
pub open spec fn pair_views(s: Seq<(String, u64)>) -> Seq<(Seq<char>, u64)> {
    s.map_values(|p: (String, u64)| (p.0@, p.1))
}

/// Whether the pairs are ordered by path.
pub open spec fn ordered_by_path(s: Seq<(Seq<char>, u64)>) -> bool {
    forall|i: int, j: int| 0 <= i < j < s.len() ==> text_le(#[trigger] s[i].0, #[trigger] s[j].0)
}

/// The content hashes of the inputs, ordered by path (so that the combined
/// hash does not depend on the order in which the inputs were loaded).
pub fn order_by_path(inputs: &Vec<(String, u64)>) -> (r: Vec<(String, u64)>)
    ensures
        pair_views(r@).to_multiset() == pair_views(inputs@).to_multiset(),
        ordered_by_path(pair_views(r@)),
{
    let ghost iv = pair_views(inputs@);
    let mut out: Vec<(String, u64)> = Vec::new();
    let mut i: usize = 0;
    proof {
        assert(pair_views(out@) =~= iv.take(0));
    }
    while i < inputs.len()
        invariant
            i <= inputs@.len(),
            iv == pair_views(inputs@),
            pair_views(out@).to_multiset() == iv.take(i as int).to_multiset(),
            ordered_by_path(pair_views(out@)),
        decreases inputs@.len() - i,
    {
        let ghost ov = pair_views(out@);
        let path = inputs[i].0.as_str();
        let mut k: usize = 0;
        while k < out.len() && text_le_exec(out[k].0.as_str(), path)
            invariant
                k <= out@.len(),
                ov == pair_views(out@),
                path@ == iv[i as int].0,
                forall|j: int| 0 <= j < k ==> text_le(#[trigger] ov[j].0, path@),
            decreases out@.len() - k,
        {
            k = k + 1;
        }
        let ghost xv = iv[i as int];
        proof {
            assert(xv == (inputs@[i as int].0@, inputs@[i as int].1));
        }
        out.insert(k, (inputs[i].0.clone(), inputs[i].1));
        proof {
            let nv = pair_views(out@);
            assert(nv =~= ov.insert(k as int, xv));
            assert(iv.take(i + 1) =~= iv.take(i as int).push(xv));
            vstd::seq_lib::to_multiset_insert(ov, k as int, xv);
            vstd::seq_lib::to_multiset_build(iv.take(i as int), xv);
            if k < ov.len() {
                assert(!text_le(ov[k as int].0, xv.0));
                lemma_text_le_total(ov[k as int].0, xv.0);
            }
            assert forall|a: int, b: int| 0 <= a < b < nv.len() implies text_le(
                #[trigger] nv[a].0,
                #[trigger] nv[b].0,
            ) by {
                if b < k {
                    assert(nv[a] == ov[a] && nv[b] == ov[b]);
                } else if b == k {
                    assert(nv[a] == ov[a]);
                } else if a < k {
                    assert(nv[a] == ov[a] && nv[b] == ov[b - 1]);
                    assert(text_le(ov[a].0, xv.0));
                    assert(text_le(xv.0, ov[k as int].0));
                    if b - 1 > k {
                        lemma_text_le_trans(xv.0, ov[k as int].0, ov[b - 1].0);
                    }
                    lemma_text_le_trans(ov[a].0, xv.0, ov[b - 1].0);
                } else if a == k {
                    assert(nv[b] == ov[b - 1]);
                    if b - 1 > k {
                        lemma_text_le_trans(xv.0, ov[k as int].0, ov[b - 1].0);
                    }
                } else {
                    assert(nv[a] == ov[a - 1] && nv[b] == ov[b - 1]);
                }
            }
        }
        i = i + 1;
    }
    proof {
        assert(iv.take(i as int) =~= iv);
    }
    out
}

/// The metadata recorded for the files: for each file whose metadata could
/// be read, its metadata by path, the last one read for a path winning;
/// paths in the order they first appear.
pub open spec fn recorded_metadata(metas: Seq<(Seq<char>, Option<FileMeta>)>) -> Seq<(Seq<char>, FileMeta)>
    decreases metas.len(),
{
    if metas.len() == 0 {
        Seq::empty()
    } else {
        let prev = recorded_metadata(metas.drop_last());
        let (p, m) = metas.last();
        match m {
            None => prev,
            Some(meta) => if exists|k: int| 0 <= k < prev.len() && #[trigger] prev[k].0 == p {
                let k = choose|k: int| 0 <= k < prev.len() && #[trigger] prev[k].0 == p;
                prev.update(k, (p, meta))
            } else {
                prev.push((p, meta))
            },
        }
    }
}

/// The entries as plain values.
pub open spec fn meta_views(s: Seq<(String, FileMeta)>) -> Seq<(Seq<char>, FileMeta)> {
    s.map_values(|e: (String, FileMeta)| (e.0@, e.1))
}

/// The metadata read for each path as plain values.
pub open spec fn read_meta_views(s: Seq<(String, Option<FileMeta>)>) -> Seq<(Seq<char>, Option<FileMeta>)> {
    s.map_values(|e: (String, Option<FileMeta>)| (e.0@, e.1))
}

/// The state to record after a successful run: the combined content hash,
/// the configuration hash, and the metadata of the input files.
pub fn cache_data_from(inputs_hash: u64, config_hash: u64, metas: &Vec<(String, Option<FileMeta>)>) -> (r:
    CacheData)
    ensures
        r.inputs_hash == inputs_hash,
        r.config_hash == config_hash,
        meta_views(r.file_meta@) == recorded_metadata(read_meta_views(metas@)),
{
    let ghost mv = read_meta_views(metas@);
    let mut out: Vec<(String, FileMeta)> = Vec::new();
    let mut i: usize = 0;
    while i < metas.len()
        invariant
            i <= metas@.len(),
            mv == read_meta_views(metas@),
            meta_views(out@) == recorded_metadata(mv.take(i as int)),
            forall|a: int, b: int| 0 <= a < b < out@.len() ==> out@[a].0@ != out@[b].0@,
        decreases metas@.len() - i,
    {
        let ghost prefix = mv.take(i + 1);
        proof {
            assert(prefix.drop_last() =~= mv.take(i as int));
            assert(prefix.last() == mv[i as int]);
        }
        match metas[i].1 {
            None => {},
            Some(meta) => {
                let path = metas[i].0.as_str();
                let ghost ov = meta_views(out@);
                let mut k: usize = 0;
                while k < out.len() && !str_eq(out[k].0.as_str(), path)
                    invariant
                        k <= out@.len(),
                        ov == meta_views(out@),
                        forall|j: int| 0 <= j < k ==> (#[trigger] ov[j]).0 != path@,
                    decreases out@.len() - k,
                {
                    k = k + 1;
                }
                if k < out.len() {
                    proof {
                        assert(ov[k as int].0 == path@);
                        let c = choose|c: int| 0 <= c < ov.len() && #[trigger] ov[c].0 == path@;
                        if c != k {
                            assert(out@[c].0@ == out@[k as int].0@);
                        }
                    }
                    out.set(k, (to_owned_string(path), meta));
                    proof {
                        assert(meta_views(out@) =~= ov.update(k as int, (path@, meta)));
                    }
                } else {
                    let ghost before = out@;
                    out.push((to_owned_string(path), meta));
                    proof {
                        assert(meta_views(out@) =~= ov.push((path@, meta)));
                        assert forall|a: int, b: int| 0 <= a < b < out@.len() implies out@[a].0@ != out@[b].0@ by {
                            assert(out@[a] == before[a]);
                            if b < before.len() {
                                assert(out@[b] == before[b]);
                            } else {
                                assert(ov[a].0 != path@);
                            }
                        }
                    }
                }
            },
        }
        i = i + 1;
    }
    proof {
        assert(mv.take(i as int) =~= mv);
    }
    CacheData { inputs_hash, config_hash, file_meta: out }
}

} // verus!
