//! Fast, resilient, zero-copy GraphQL extraction from source files.
//!
//! Supported patterns:
//! - `` gql`...` ``
//! - `` graphql`...` ``
//! - `` /* GraphQL */ `...` ``
//!
//! String literals, line comments, other block comments and untagged
//! template literals are skipped, so their contents never match.
use vstd::prelude::*;

use vstd::string::StringSliceAdditionalSpecFns;
use vstd::utf8::{decode_utf8, encode_utf8, encode_utf8_decode_utf8, valid_utf8};

use crate::scanner::{
    adv, block_comment, column_at, ident_end, lemma_block_comment_bounds,
    lemma_ident_end_bounds, lemma_line_column_bounds, lemma_read_template_bounds,
    lemma_skip_line_bounds, lemma_skip_string_bounds, lemma_skip_template_bounds,
    lemma_skip_ws_bounds, line_at, peek_at, read_template, skip_line, skip_string, skip_template,
    skip_ws, Scanner, BACKTICK, DOUBLE_QUOTE, SINGLE_QUOTE, SLASH, STAR,
};
use crate::scanner::{is_ident_byte, law_template_read_whole, simple_template};
use crate::text::{
    is_alpha_byte, is_alpha_byte_exec, lower_byte, lower_byte_exec, str_trim, to_owned_string,
    unicode_trim,
};

verus! {

/// Configuration for the extractor.
#[derive(Debug, Clone)]
pub struct ExtractConfig {
    /// Tag identifiers to look for (default: ["gql", "graphql"])
    pub tags: Vec<String>,
    /// Magic comments to look for, case-insensitive (default: ["GraphQL"])
    pub magic_comments: Vec<String>,
}

/// The configuration as bytes: the tags and the magic comments, each by its
/// UTF-8 encoding.
pub struct ScanConfig {
    pub tags: Seq<Seq<u8>>,
    pub magic: Seq<Seq<u8>>,
}

impl ExtractConfig {
    pub open spec fn scan_config(&self) -> ScanConfig {
        ScanConfig {
            tags: self.tags@.map_values(|t: String| encode_utf8(t@)),
            magic: self.magic_comments@.map_values(|m: String| encode_utf8(m@)),
        }
    }
}

impl Default for ExtractConfig {
    fn default() -> (r: Self)
        ensures
            r.tags@.len() == 2,
            r.tags@[0]@ == "gql"@,
            r.tags@[1]@ == "graphql"@,
            r.magic_comments@.len() == 1,
            r.magic_comments@[0]@ == "GraphQL"@,
    {
        let mut tags: Vec<String> = Vec::new();
        tags.push(to_owned_string("gql"));
        tags.push(to_owned_string("graphql"));
        let mut magic_comments: Vec<String> = Vec::new();
        magic_comments.push(to_owned_string("GraphQL"));
        ExtractConfig { tags, magic_comments }
    }
}

/// An extracted GraphQL document with its source location (zero-copy).
#[derive(Debug, Clone, Copy, PartialEq, Eq)]
pub struct Extracted<'a> {
    /// The GraphQL source text (a slice of the source)
    pub text: &'a str,
    /// 1-indexed line number where the GraphQL starts
    pub line: usize,
    /// 1-indexed column number
    pub column: usize,
}

/// Owned version of [`Extracted`], for storing results.
#[derive(Debug, Clone, PartialEq, Eq)]
pub struct ExtractedOwned {
    pub text: String,
    pub line: usize,
    pub column: usize,
}

impl<'a> Extracted<'a> {
    /// Convert to the owned version (allocates).
    pub fn to_owned(&self) -> (r: ExtractedOwned)
        ensures
            r.text@ == self.text@,
            r.line == self.line,
            r.column == self.column,
    {
        ExtractedOwned { text: to_owned_string(self.text), line: self.line, column: self.column }
    }
}

// ── Specification ──────────────────────────────────────────────────────────

/// A document found in the source: its text is the bytes from `start` to
/// `end`, and it is reported at `line` and `column`.
pub struct Found {
    pub start: int,
    pub end: int,
    pub line: int,
    pub column: int,
}

pub open spec fn lower_seq(s: Seq<u8>) -> Seq<u8> {
    s.map_values(|c: u8| lower_byte(c))
}

/// Whether the bytes `n` occur in `h`.
pub open spec fn contains_seq(h: Seq<u8>, n: Seq<u8>) -> bool {
    exists|i: int| 0 <= i && i + n.len() <= h.len() && #[trigger] h.subrange(i, i + n.len()) == n
}

/// Whether a block comment with these content bytes is a magic comment: its
/// trimmed text equals one of the magic comments, ignoring ASCII case.
pub open spec fn is_magic(cfg: ScanConfig, content: Seq<u8>) -> bool {
    exists|k: int|
        0 <= k < cfg.magic.len() && lower_seq(encode_utf8(unicode_trim(decode_utf8(content))))
            == #[trigger] lower_seq(cfg.magic[k])
}

pub open spec fn sat_sub2(x: int) -> int {
    if x >= 2 {
        x - 2
    } else {
        0
    }
}

/// After a tag or a magic comment that ends at `q`: a template literal after
/// optional whitespace is a document reported at `line` and `column`.
pub open spec fn tagged_template(b: Seq<u8>, q: int, line: int, column: int) -> (
    Option<Found>,
    int,
) {
    let w = skip_ws(b, q);
    if peek_at(b, w) == BACKTICK {
        let (e, r) = read_template(b, w + 1);
        match e {
            Some(e) => (Some(Found { start: w + 1, end: e, line, column }), r),
            None => (None, r),
        }
    } else {
        (None, w)
    }
}

/// One step of the extractor at position `p`: what it finds there, and
/// where it continues.
pub open spec fn step(b: Seq<u8>, cfg: ScanConfig, p: int) -> (Option<Found>, int) {
    let c = b[p];
    if c == DOUBLE_QUOTE {
        (None, skip_string(b, p + 1, DOUBLE_QUOTE))
    } else if c == SINGLE_QUOTE {
        (None, skip_string(b, p + 1, SINGLE_QUOTE))
    } else if c == SLASH {
        if peek_at(b, p + 1) == SLASH {
            (None, skip_line(b, p + 1))
        } else if peek_at(b, p + 1) == STAR {
            let p2 = p + 2;
            let (e, q) = block_comment(b, p2);
            match e {
                Some(e) => if is_magic(cfg, b.subrange(p2, e)) {
                    tagged_template(b, q, line_at(b, p2), sat_sub2(column_at(b, p2)))
                } else {
                    (None, q)
                },
                None => (None, q),
            }
        } else {
            (None, p + 1)
        }
    } else if is_alpha_byte(c) {
        let e = ident_end(b, p);
        if cfg.tags.contains(b.subrange(p, e)) {
            tagged_template(b, e, line_at(b, p), column_at(b, p))
        } else {
            (None, e)
        }
    } else if c == BACKTICK {
        (None, skip_template(b, p + 1))
    } else {
        (None, p + 1)
    }
}

/// Everything the extractor finds from position `p` on.
pub open spec fn scan(b: Seq<u8>, cfg: ScanConfig, p: int) -> Seq<Found>
    decreases b.len() - p,
{
    if p < 0 || p >= b.len() {
        Seq::empty()
    } else {
        let (f, q) = step(b, cfg, p);
        let rest = if p < q <= b.len() {
            scan(b, cfg, q)
        } else {
            Seq::empty()
        };
        match f {
            Some(x) => seq![x] + rest,
            None => rest,
        }
    }
}

/// Whether the source holds a tag, or a magic comment ignoring ASCII case,
/// anywhere at all.
pub open spec fn has_marker(b: Seq<u8>, cfg: ScanConfig) -> bool {
    ||| exists|k: int| 0 <= k < cfg.tags.len() && contains_seq(b, #[trigger] cfg.tags[k])
    ||| exists|k: int|
        0 <= k < cfg.magic.len() && contains_seq(lower_seq(b), lower_seq(#[trigger] cfg.magic[k]))
}

/// The documents that `extract` finds in source bytes `b`.
pub open spec fn extract_spec(b: Seq<u8>, cfg: ScanConfig) -> Seq<Found> {
    if has_marker(b, cfg) {
        scan(b, cfg, 0)
    } else {
        Seq::empty()
    }
}

/// The extracted documents are the found ones: same text bytes, same place.
pub open spec fn matches_found(res: Seq<Extracted>, b: Seq<u8>, found: Seq<Found>) -> bool {
    &&& res.len() == found.len()
    &&& forall|i: int|
        0 <= i < res.len() ==> {
            &&& (#[trigger] res[i]).text.spec_bytes() == b.subrange(found[i].start, found[i].end)
            &&& res[i].line == found[i].line
            &&& res[i].column == found[i].column
        }
}

pub proof fn lemma_step_advances(b: Seq<u8>, cfg: ScanConfig, p: int)
    requires
        0 <= p < b.len(),
    ensures
        p < step(b, cfg, p).1 <= b.len(),
        step(b, cfg, p).0 matches Some(f) ==> 0 < f.start <= f.end < b.len() && b[f.start - 1]
            == BACKTICK && b[f.end] == BACKTICK && p < f.start && f.end < step(b, cfg, p).1,
{
    let c = b[p];
    if c == DOUBLE_QUOTE || c == SINGLE_QUOTE {
        lemma_skip_string_bounds(b, p + 1, c);
    } else if c == SLASH {
        if peek_at(b, p + 1) == SLASH {
            lemma_skip_line_bounds(b, p + 1);
        } else if peek_at(b, p + 1) == STAR {
            lemma_block_comment_bounds(b, p + 2);
            let q = block_comment(b, p + 2).1;
            lemma_tagged_template(b, q, line_at(b, p + 2), sat_sub2(column_at(b, p + 2)));
        }
    } else if is_alpha_byte(c) {
        lemma_ident_end_bounds(b, p);
        lemma_tagged_template(b, ident_end(b, p), line_at(b, p), column_at(b, p));
    } else if c == BACKTICK {
        lemma_skip_template_bounds(b, p + 1);
    }
}

/// Whether a found document lies inside the source, between two backticks.
pub open spec fn inside_backticks(b: Seq<u8>, f: Found) -> bool {
    0 < f.start <= f.end < b.len() && b[f.start - 1] == BACKTICK && b[f.end] == BACKTICK
}

/// Every document found from position `p` on lies inside the source,
/// between two backticks.
pub proof fn lemma_scan_bounds(b: Seq<u8>, cfg: ScanConfig, p: int)
    ensures
        forall|i: int| 0 <= i < scan(b, cfg, p).len() ==> inside_backticks(b, #[trigger] scan(b, cfg, p)[i]),
    decreases b.len() - p,
{
    if 0 <= p < b.len() {
        lemma_step_advances(b, cfg, p);
        let (f, q) = step(b, cfg, p);
        lemma_scan_bounds(b, cfg, q);
        let rest = scan(b, cfg, q);
        let all = scan(b, cfg, p);
        assert forall|i: int| 0 <= i < all.len() implies inside_backticks(b, #[trigger] all[i]) by {
            match f {
                Some(x) => {
                    assert(all == seq![x] + rest);
                    if i > 0 {
                        assert(all[i] == rest[i - 1]);
                    }
                },
                None => {
                    assert(all == rest);
                },
            }
        }
    }
}

/// The documents found from position `p` on start after `p`, come in source
/// order and do not overlap.
pub proof fn lemma_scan_ordered(b: Seq<u8>, cfg: ScanConfig, p: int)
    ensures
        forall|i: int| 0 <= i < scan(b, cfg, p).len() ==> p < (#[trigger] scan(b, cfg, p)[i]).start,
        forall|i: int, j: int|
            0 <= i < j < scan(b, cfg, p).len() ==> (#[trigger] scan(b, cfg, p)[i]).end < (
            #[trigger] scan(b, cfg, p)[j]).start,
    decreases b.len() - p,
{
    if 0 <= p < b.len() {
        lemma_step_advances(b, cfg, p);
        let (f, q) = step(b, cfg, p);
        lemma_scan_ordered(b, cfg, q);
        let rest = scan(b, cfg, q);
        let all = scan(b, cfg, p);
        match f {
            Some(x) => {
                assert(all == seq![x] + rest);
                assert forall|i: int| 0 <= i < all.len() implies p < (#[trigger] all[i]).start by {
                    if i > 0 {
                        assert(all[i] == rest[i - 1]);
                    }
                }
                assert forall|i: int, j: int| 0 <= i < j < all.len() implies (#[trigger] all[i]).end < (
                #[trigger] all[j]).start by {
                    assert(all[j] == rest[j - 1]);
                    if i > 0 {
                        assert(all[i] == rest[i - 1]);
                    }
                }
            },
            None => {
                assert(all == rest);
            },
        }
    }
}

/// The documents `extract` finds come in source order and do not overlap.
pub proof fn law_extracted_in_order(b: Seq<u8>, cfg: ScanConfig)
    ensures
        forall|i: int, j: int|
            0 <= i < j < extract_spec(b, cfg).len() ==> (#[trigger] extract_spec(b, cfg)[i]).end < (
            #[trigger] extract_spec(b, cfg)[j]).start,
{
    lemma_scan_ordered(b, cfg, 0);
}

/// Every document `extract` finds is the text between two backticks of the
/// source.
pub proof fn lemma_extract_spec_bounds(b: Seq<u8>, cfg: ScanConfig)
    ensures
        forall|i: int| 0 <= i < extract_spec(b, cfg).len() ==> inside_backticks(b, #[trigger] extract_spec(b, cfg)[i]),
{
    lemma_scan_bounds(b, cfg, 0);
}

proof fn lemma_tagged_template(b: Seq<u8>, q: int, line: int, column: int)
    requires
        0 <= q <= b.len(),
    ensures
        q <= tagged_template(b, q, line, column).1 <= b.len(),
        tagged_template(b, q, line, column).0 matches Some(f) ==> 0 < f.start <= f.end < b.len()
            && b[f.start - 1] == BACKTICK && b[f.end] == BACKTICK && f.line == line && f.column
            == column && q < f.start && f.end < tagged_template(b, q, line, column).1,
{
    lemma_skip_ws_bounds(b, q);
    let w = skip_ws(b, q);
    if peek_at(b, w) == BACKTICK {
        lemma_read_template_bounds(b, w + 1);
    }
}

// ── Byte search ────────────────────────────────────────────────────────────

/// Whether `h[start..end]` equals `n`.
fn range_eq(h: &[u8], start: usize, end: usize, n: &[u8]) -> (r: bool)
    requires
        start <= end <= h@.len(),
    ensures
        r == (h@.subrange(start as int, end as int) == n@),
{
    if end - start != n.len() {
        return false;
    }
    let mut k: usize = 0;
    while k < n.len()
        invariant
            start <= end <= h@.len(),
            end - start == n@.len(),
            k <= n@.len(),
            forall|j: int| 0 <= j < k ==> h@[start + j] == n@[j],
        decreases n@.len() - k,
    {
        if h[start + k] != n[k] {
            proof {
                assert(h@.subrange(start as int, end as int)[k as int] != n@[k as int]);
            }
            return false;
        }
        k = k + 1;
    }
    proof {
        assert(h@.subrange(start as int, end as int) =~= n@);
    }
    true
}

/// Whether `n` occurs in `h`; with `fold`, ignoring ASCII case.
fn bytes_contains(h: &[u8], n: &[u8], fold: bool) -> (r: bool)
    ensures
        r == if fold {
            contains_seq(lower_seq(h@), lower_seq(n@))
        } else {
            contains_seq(h@, n@)
        },
{
    let ghost hh = if fold {
        lower_seq(h@)
    } else {
        h@
    };
    let ghost nn = if fold {
        lower_seq(n@)
    } else {
        n@
    };
    if n.len() > h.len() {
        proof {
            assert(!contains_seq(hh, nn));
        }
        return false;
    }
    let hl = h.len();
    let last = hl - n.len();
    let mut i: usize = 0;
    loop
        invariant
            hl == h@.len(),
            i <= last,
            last == h@.len() - n@.len(),
            hh.len() == h@.len(),
            nn.len() == n@.len(),
            hh == if fold {
                lower_seq(h@)
            } else {
                h@
            },
            nn == if fold {
                lower_seq(n@)
            } else {
                n@
            },
            forall|j: int| 0 <= j < i ==> #[trigger] hh.subrange(j, j + nn.len()) != nn,
        decreases last - i,
    {
        let mut k: usize = 0;
        let mut same = true;
        while k < n.len() && same
            invariant
                hl == h@.len(),
                i <= last,
                last == h@.len() - n@.len(),
                hh.len() == h@.len(),
                nn.len() == n@.len(),
                hh == if fold {
                    lower_seq(h@)
                } else {
                    h@
                },
                nn == if fold {
                    lower_seq(n@)
                } else {
                    n@
                },
                k <= n@.len(),
                i + n@.len() <= h@.len(),
                same ==> forall|j: int| 0 <= j < k ==> hh[i + j] == nn[j],
                !same ==> hh.subrange(i as int, i + nn.len()) != nn,
            decreases n@.len() - k + if same {
                1int
            } else {
                0int
            },
        {
            assert(k < n@.len());
            assert(i + k < h@.len());
            let idx: usize = i + k;
            let x = if fold {
                lower_byte_exec(h[idx])
            } else {
                h[idx]
            };
            let y = if fold {
                lower_byte_exec(n[k])
            } else {
                n[k]
            };
            if x != y {
                same = false;
                proof {
                    assert(hh.subrange(i as int, i + nn.len())[k as int] != nn[k as int]);
                }
            } else {
                k = k + 1;
            }
        }
        if same {
            proof {
                assert(hh.subrange(i as int, i + nn.len()) =~= nn);
            }
            return true;
        }
        if i == last {
            proof {
                assert forall|j: int| 0 <= j && j + nn.len() <= hh.len() implies #[trigger] hh.subrange(
                    j,
                    j + nn.len(),
                ) != nn by {
                    if j == i {
                    }
                }
            }
            return false;
        }
        i = i + 1;
    }
}

/// Whether `a` and `b` are equal ignoring ASCII case (`str::eq_ignore_ascii_case`).
fn eq_ignore_ascii_case(a: &[u8], b: &[u8]) -> (r: bool)
    ensures
        r == (lower_seq(a@) == lower_seq(b@)),
{
    if a.len() != b.len() {
        proof {
            assert(lower_seq(a@).len() != lower_seq(b@).len());
        }
        return false;
    }
    let mut k: usize = 0;
    while k < a.len()
        invariant
            a@.len() == b@.len(),
            k <= a@.len(),
            forall|j: int| 0 <= j < k ==> lower_byte(a@[j]) == lower_byte(b@[j]),
        decreases a@.len() - k,
    {
        if lower_byte_exec(a[k]) != lower_byte_exec(b[k]) {
            proof {
                assert(lower_seq(a@)[k as int] != lower_seq(b@)[k as int]);
            }
            return false;
        }
        k = k + 1;
    }
    proof {
        assert(lower_seq(a@) =~= lower_seq(b@));
    }
    true
}

// ── Extraction ─────────────────────────────────────────────────────────────

/// Whether `b[start..end]` is one of the configured tags.
fn is_tag(config: &ExtractConfig, b: &[u8], start: usize, end: usize) -> (r: bool)
    requires
        start <= end <= b@.len(),
    ensures
        r == config.scan_config().tags.contains(b@.subrange(start as int, end as int)),
{
    let ghost tags = config.scan_config().tags;
    let mut k: usize = 0;
    while k < config.tags.len()
        invariant
            start <= end <= b@.len(),
            tags == config.scan_config().tags,
            tags.len() == config.tags@.len(),
            k <= config.tags@.len(),
            forall|j: int| 0 <= j < k ==> tags[j] != b@.subrange(start as int, end as int),
        decreases config.tags@.len() - k,
    {
        let tag = config.tags[k].as_str();
        if range_eq(b, start, end, tag.as_bytes()) {
            proof {
                assert(tags[k as int] == b@.subrange(start as int, end as int));
            }
            return true;
        }
        k = k + 1;
    }
    false
}

/// Whether the trimmed text of a block comment is one of the magic comments.
fn is_magic_comment(config: &ExtractConfig, trimmed: &[u8]) -> (r: bool)
    ensures
        r == exists|k: int|
            0 <= k < config.scan_config().magic.len() && lower_seq(trimmed@) == #[trigger] lower_seq(
                config.scan_config().magic[k],
            ),
{
    let ghost magic = config.scan_config().magic;
    let mut k: usize = 0;
    while k < config.magic_comments.len()
        invariant
            magic == config.scan_config().magic,
            magic.len() == config.magic_comments@.len(),
            k <= config.magic_comments@.len(),
            forall|j: int| 0 <= j < k ==> lower_seq(trimmed@) != #[trigger] lower_seq(magic[j]),
        decreases config.magic_comments@.len() - k,
    {
        let mc = config.magic_comments[k].as_str();
        if eq_ignore_ascii_case(trimmed, mc.as_bytes()) {
            proof {
                assert(lower_seq(trimmed@) == lower_seq(magic[k as int]));
            }
            return true;
        }
        k = k + 1;
    }
    false
}

/// Whether any marker occurs in the source (the quick bail-out).
fn has_any_marker(config: &ExtractConfig, b: &[u8]) -> (r: bool)
    ensures
        r == has_marker(b@, config.scan_config()),
{
    let ghost cfg = config.scan_config();
    let mut has_tag = false;
    let mut k: usize = 0;
    while k < config.tags.len()
        invariant
            cfg == config.scan_config(),
            cfg.tags.len() == config.tags@.len(),
            k <= config.tags@.len(),
            has_tag == exists|j: int| 0 <= j < k && contains_seq(b@, #[trigger] cfg.tags[j]),
        decreases config.tags@.len() - k,
    {
        if bytes_contains(b, config.tags[k].as_str().as_bytes(), false) {
            has_tag = true;
        }
        proof {
            if contains_seq(b@, cfg.tags[k as int]) {
                assert(exists|j: int| 0 <= j < k + 1 && contains_seq(b@, #[trigger] cfg.tags[j]));
            }
        }
        k = k + 1;
    }
    let mut has_magic = false;
    let mut k: usize = 0;
    while k < config.magic_comments.len()
        invariant
            cfg == config.scan_config(),
            cfg.magic.len() == config.magic_comments@.len(),
            k <= config.magic_comments@.len(),
            has_magic == exists|j: int|
                0 <= j < k && contains_seq(lower_seq(b@), lower_seq(#[trigger] cfg.magic[j])),
        decreases config.magic_comments@.len() - k,
    {
        if bytes_contains(b, config.magic_comments[k].as_str().as_bytes(), true) {
            has_magic = true;
        }
        proof {
            if contains_seq(lower_seq(b@), lower_seq(cfg.magic[k as int])) {
                assert(exists|j: int|
                    0 <= j < k + 1 && contains_seq(lower_seq(b@), lower_seq(#[trigger] cfg.magic[j])));
            }
        }
        k = k + 1;
    }
    has_tag || has_magic
}

/// After a tag or a magic comment: a template literal after optional
/// whitespace is a document, reported at `line` and `column`.
fn read_tagged<'a>(scanner: &mut Scanner<'a>, line: usize, column: usize) -> (r: Option<
    Extracted<'a>,
>)
    requires
        old(scanner).wf(),
    ensures
        ({
            let (f, q) = tagged_template(old(scanner).b(), old(scanner).pos as int, line as int, column as int);
            &&& final(scanner).moved(*old(scanner), q)
            &&& match f {
                Some(f) => r is Some && r->0.text.spec_bytes() == old(scanner).b().subrange(
                    f.start,
                    f.end,
                ) && r->0.line == f.line && r->0.column == f.column,
                None => r is None,
            }
        }),
{
    scanner.skip_whitespace();
    if scanner.peek() == BACKTICK {
        scanner.advance();
        match scanner.read_template_literal() {
            Some(text) => Some(Extracted { text, line, column }),
            None => None,
        }
    } else {
        None
    }
}

/// One step of the extractor at the scanner's position.
fn scan_one<'a>(scanner: &mut Scanner<'a>, config: &ExtractConfig) -> (r: Option<Extracted<'a>>)
    requires
        old(scanner).wf(),
        old(scanner).pos < old(scanner).b().len(),
    ensures
        ({
            let (f, q) = step(old(scanner).b(), config.scan_config(), old(scanner).pos as int);
            &&& final(scanner).moved(*old(scanner), q)
            &&& match f {
                Some(f) => r is Some && r->0.text.spec_bytes() == old(scanner).b().subrange(
                    f.start,
                    f.end,
                ) && r->0.line == f.line && r->0.column == f.column,
                None => r is None,
            }
        }),
{
    let ghost b = scanner.b();
    let ghost p = scanner.pos as int;
    let ch = scanner.peek();
    if ch == DOUBLE_QUOTE {
        scanner.advance();
        scanner.skip_string(DOUBLE_QUOTE);
        None
    } else if ch == SINGLE_QUOTE {
        scanner.advance();
        scanner.skip_string(SINGLE_QUOTE);
        None
    } else if ch == SLASH {
        scanner.advance();
        let next = scanner.peek();
        if next == SLASH {
            scanner.skip_line_comment();
            None
        } else if next == STAR {
            scanner.advance();
            let comment_line = scanner.line;
            let comment_column = if scanner.column >= 2 {
                scanner.column - 2
            } else {
                0
            };
            match scanner.read_block_comment() {
                Some(content) => {
                    let trimmed = str_trim(content);
                    proof {
                        encode_utf8_decode_utf8(content@);
                    }
                    if is_magic_comment(config, trimmed.as_bytes()) {
                        read_tagged(scanner, comment_line, comment_column)
                    } else {
                        None
                    }
                },
                None => None,
            }
        } else {
            None
        }
    } else if is_alpha_byte_exec(ch) {
        let start_line = scanner.line;
        let start_column = scanner.column;
        let start = scanner.pos;
        let end = scanner.read_identifier();
        proof {
            lemma_ident_end_bounds(b, p);
        }
        if is_tag(config, scanner.bytes, start, end) {
            read_tagged(scanner, start_line, start_column)
        } else {
            None
        }
    } else if ch == BACKTICK {
        scanner.advance();
        scanner.skip_template_literal();
        None
    } else {
        scanner.advance();
        None
    }
}

/// Extract all GraphQL documents from source text (zero-copy).
///
/// A source in which no tag occurs, and no magic comment occurs ignoring
/// ASCII case, is not scanned at all.
pub fn extract<'a>(source: &'a str, config: &ExtractConfig) -> (r: Vec<Extracted<'a>>)
    requires
        source.spec_bytes().len() < usize::MAX,
    ensures
        matches_found(r@, source.spec_bytes(), extract_spec(source.spec_bytes(), config.scan_config())),
{
    let ghost cfg = config.scan_config();
    let ghost b = source.spec_bytes();
    if !has_any_marker(config, source.as_bytes()) {
        return Vec::new();
    }
    let mut results: Vec<Extracted<'a>> = Vec::new();
    let mut scanner = Scanner::new(source);
    let ghost mut found: Seq<Found> = Seq::empty();
    while !scanner.is_eof()
        invariant
            scanner.wf(),
            scanner.source == source,
            scanner.b() == b,
            cfg == config.scan_config(),
            found + scan(b, cfg, scanner.pos as int) == scan(b, cfg, 0),
            matches_found(results@, b, found),
        decreases b.len() - scanner.pos,
    {
        let ghost p = scanner.pos as int;
        proof {
            lemma_step_advances(b, cfg, p);
        }
        let item = scan_one(&mut scanner, config);
        match item {
            Some(e) => {
                let ghost f = step(b, cfg, p).0->0;
                results.push(e);
                proof {
                    assert(scan(b, cfg, p) == seq![f] + scan(b, cfg, scanner.pos as int));
                    assert(found.push(f) + scan(b, cfg, scanner.pos as int) =~= found + scan(
                        b,
                        cfg,
                        p,
                    ));
                    found = found.push(f);
                    assert forall|i: int| 0 <= i < results@.len() implies {
                        &&& (#[trigger] results@[i]).text.spec_bytes() == b.subrange(
                            found[i].start,
                            found[i].end,
                        )
                        &&& results@[i].line == found[i].line
                        &&& results@[i].column == found[i].column
                    } by {}
                }
            },
            None => {
                proof {
                    assert(scan(b, cfg, p) == scan(b, cfg, scanner.pos as int));
                }
            },
        }
    }
    proof {
        assert(scan(b, cfg, scanner.pos as int) =~= Seq::<Found>::empty());
        assert(found =~= scan(b, cfg, 0));
    }
    results
}

/// Extract and convert to owned values.
pub fn extract_owned(source: &str, config: &ExtractConfig) -> (r: Vec<ExtractedOwned>)
    requires
        source.spec_bytes().len() < usize::MAX,
    ensures
        ({
            let found = extract_spec(source.spec_bytes(), config.scan_config());
            &&& r@.len() == found.len()
            &&& forall|i: int|
                0 <= i < r@.len() ==> {
                    &&& encode_utf8((#[trigger] r@[i]).text@) == source.spec_bytes().subrange(
                        found[i].start,
                        found[i].end,
                    )
                    &&& r@[i].line == found[i].line
                    &&& r@[i].column == found[i].column
                }
        }),
{
    let extracted = extract(source, config);
    let mut owned: Vec<ExtractedOwned> = Vec::new();
    let mut i: usize = 0;
    while i < extracted.len()
        invariant
            i <= extracted@.len(),
            owned@.len() == i,
            forall|j: int|
                0 <= j < i ==> {
                    &&& (#[trigger] owned@[j]).text@ == extracted@[j].text@
                    &&& owned@[j].line == extracted@[j].line
                    &&& owned@[j].column == extracted@[j].column
                },
        decreases extracted@.len() - i,
    {
        owned.push(extracted[i].to_owned());
        i = i + 1;
    }
    owned
}

proof fn lemma_ident_end_of_tag(b: Seq<u8>, len: int, j: int)
    requires
        0 <= j <= len < b.len(),
        forall|k: int| j <= k < len ==> is_ident_byte(#[trigger] b[k]),
        !is_ident_byte(b[len]),
    ensures
        ident_end(b, j) == len,
    decreases len - j,
{
    if j < len {
        lemma_ident_end_of_tag(b, len, j + 1);
    }
}

/// A source that is a tag followed by a template, whose text is plain bytes
/// and interpolations `${...}` with plain contents, holds exactly one
/// document: the whole template text between the backticks, interpolations
/// included, reported at line 1, column 1 (where the tag starts).
pub proof fn law_tagged_template_extracted_whole(
    b: Seq<u8>,
    cfg: ScanConfig,
    k: int,
    t: Seq<u8>,
)
    requires
        0 <= k < cfg.tags.len(),
        cfg.tags[k].len() > 0,
        is_alpha_byte(cfg.tags[k][0]),
        forall|j: int| 0 <= j < cfg.tags[k].len() ==> is_ident_byte(#[trigger] cfg.tags[k][j]),
        simple_template(t, 0),
        b == cfg.tags[k] + seq![BACKTICK] + t + seq![BACKTICK],
    ensures
        extract_spec(b, cfg) == seq![
            Found {
                start: cfg.tags[k].len() + 1int,
                end: cfg.tags[k].len() + 1int + t.len(),
                line: 1,
                column: 1,
            },
        ],
{
    let tag = cfg.tags[k];
    let l = tag.len() as int;
    let n = t.len() as int;
    assert(b.subrange(0, l) =~= tag);
    assert(b.subrange(0int, 0int + cfg.tags[k].len()) == cfg.tags[k]);
    assert(contains_seq(b, cfg.tags[k]));
    assert(has_marker(b, cfg));
    assert(b[l] == BACKTICK);
    assert forall|j: int| 0 <= j < l implies is_ident_byte(#[trigger] b[j]) by {
        assert(b[j] == tag[j]);
    }
    lemma_ident_end_of_tag(b, l, 0);
    assert(cfg.tags.contains(b.subrange(0, l)));
    assert(b[0] == tag[0]);
    assert(skip_ws(b, l) == l);
    assert(b.subrange(l + 1, l + 1 + n) =~= t);
    assert(b[l + 1 + n] == BACKTICK);
    law_template_read_whole(b, l + 1, n);
    let f = Found { start: l + 1, end: l + 1 + n, line: 1, column: 1 };
    assert(step(b, cfg, 0) == (Some(f), l + 2 + n));
    assert(b.len() == l + 2 + n);
    assert(scan(b, cfg, l + 2 + n) == Seq::<Found>::empty());
    assert(scan(b, cfg, 0) =~= seq![f]);
}

proof fn lemma_block_comment_closes(b: Seq<u8>, e: int, j: int)
    requires
        0 <= j <= e,
        e + 1 < b.len(),
        forall|k: int| j <= k < e ==> #[trigger] b[k] != STAR,
        b[e] == STAR,
        b[e + 1] == SLASH,
    ensures
        block_comment(b, j) == (Some(e), e + 2),
    decreases e - j,
{
    if j < e {
        lemma_block_comment_closes(b, e, j + 1);
    }
}

/// A source that is a magic comment (`/*`, one of the configured magic
/// texts, `*/`) followed by a template, whose text is plain bytes and
/// interpolations `${...}` with plain contents, holds exactly one document:
/// the whole template text, reported at line 1, column 1 (where the comment
/// starts). The magic text is taken as configured: valid UTF-8 without a
/// `*` and without surrounding white space.
pub proof fn law_magic_comment_template_extracted_whole(
    b: Seq<u8>,
    cfg: ScanConfig,
    k: int,
    t: Seq<u8>,
)
    requires
        0 <= k < cfg.magic.len(),
        valid_utf8(cfg.magic[k]),
        forall|j: int| 0 <= j < cfg.magic[k].len() ==> #[trigger] cfg.magic[k][j] != STAR,
        unicode_trim(decode_utf8(cfg.magic[k])) == decode_utf8(cfg.magic[k]),
        simple_template(t, 0),
        b == seq![SLASH, STAR] + cfg.magic[k] + seq![STAR, SLASH, BACKTICK] + t + seq![BACKTICK],
    ensures
        extract_spec(b, cfg) == seq![
            Found {
                start: cfg.magic[k].len() + 5int,
                end: cfg.magic[k].len() + 5int + t.len(),
                line: 1,
                column: 1,
            },
        ],
{
    let m = cfg.magic[k];
    let l = m.len() as int;
    let n = t.len() as int;
    assert(b.subrange(2, 2 + l) =~= m);
    assert(lower_seq(b).subrange(2int, 2int + lower_seq(cfg.magic[k]).len()) =~= lower_seq(m));
    assert(contains_seq(lower_seq(b), lower_seq(cfg.magic[k])));
    assert(has_marker(b, cfg));
    assert forall|j: int| 2 <= j < 2 + l implies #[trigger] b[j] != STAR by {
        assert(b[j] == m[j - 2]);
    }
    lemma_block_comment_closes(b, 2 + l, 2);
    vstd::utf8::decode_utf8_encode_utf8(m);
    assert(is_magic(cfg, b.subrange(2, 2 + l)));
    assert(b[0] == SLASH && b[1] == STAR);
    assert(line_at(b, 0) == 1 && column_at(b, 0) == 1);
    assert(line_at(b, 1) == 1);
    assert(line_at(b, 2) == 1);
    assert(column_at(b, 1) == 2);
    assert(column_at(b, 2) == 3);
    let q = 4 + l;
    assert(b[q] == BACKTICK);
    assert(skip_ws(b, q) == q);
    assert(b.subrange(q + 1, q + 1 + n) =~= t);
    assert(b[q + 1 + n] == BACKTICK);
    law_template_read_whole(b, q + 1, n);
    let f = Found { start: q + 1, end: q + 1 + n, line: 1, column: 1 };
    assert(step(b, cfg, 0) == (Some(f), q + 2 + n));
    assert(b.len() == q + 2 + n);
    assert(scan(b, cfg, q + 2 + n) == Seq::<Found>::empty());
    assert(scan(b, cfg, 0) =~= seq![f]);
}

} // verus!
