//! A single-pass byte scanner over JavaScript/TypeScript source with line and
//! column tracking, and the specification of each way it moves forward.
//!
//! Every specification takes the source bytes `b` and a position `p`, and
//! says where the scanner stands afterwards.
use vstd::prelude::*;

use vstd::string::StringSliceAdditionalSpecFns;
use vstd::utf8::{
    encode_utf8, encode_utf8_valid_utf8, is_char_boundary, is_char_boundary_iff_not_is_continuation_byte,
    is_char_boundary_start_end_of_seq, is_continuation_byte, valid_utf8, valid_utf8_split,
};

use crate::text::{is_alpha_byte, is_alpha_byte_exec, is_digit_byte, is_digit_byte_exec, is_ws_byte, is_ws_byte_exec};

verus! {

pub const NEWLINE: u8 = 0x0a;

pub const DOUBLE_QUOTE: u8 = 0x22;

pub const SINGLE_QUOTE: u8 = 0x27;

pub const SLASH: u8 = 0x2f;

pub const STAR: u8 = 0x2a;

pub const BACKTICK: u8 = 0x60;

pub const BACKSLASH: u8 = 0x5c;

pub const DOLLAR: u8 = 0x24;

pub const OPEN_BRACE: u8 = 0x7b;

pub const CLOSE_BRACE: u8 = 0x7d;

pub const UNDERSCORE: u8 = 0x5f;

// ── Positions ──────────────────────────────────────────────────────────────

/// The byte at `p`, or `0` past the end.
pub open spec fn peek_at(b: Seq<u8>, p: int) -> u8 {
    if 0 <= p < b.len() {
        b[p]
    } else {
        0
    }
}

/// One step forward, except at the end.
pub open spec fn adv(b: Seq<u8>, p: int) -> int {
    if p < b.len() {
        p + 1
    } else {
        p
    }
}

/// The 1-based line of position `p`: one more than the line feeds before it.
pub open spec fn line_at(b: Seq<u8>, p: int) -> int
    decreases p,
{
    if p <= 0 {
        1
    } else if b[p - 1] == NEWLINE {
        line_at(b, p - 1) + 1
    } else {
        line_at(b, p - 1)
    }
}

/// The 1-based column of position `p`: one more than the bytes since the
/// last line feed before it.
pub open spec fn column_at(b: Seq<u8>, p: int) -> int
    decreases p,
{
    if p <= 0 {
        1
    } else if b[p - 1] == NEWLINE {
        1
    } else {
        column_at(b, p - 1) + 1
    }
}

pub proof fn lemma_line_column_bounds(b: Seq<u8>, p: int)
    requires
        0 <= p,
    ensures
        1 <= line_at(b, p) <= p + 1,
        1 <= column_at(b, p) <= p + 1,
    decreases p,
{
    if p > 0 {
        lemma_line_column_bounds(b, p - 1);
    }
}

// ── Skipping ───────────────────────────────────────────────────────────────

/// Past ASCII whitespace.
pub open spec fn skip_ws(b: Seq<u8>, p: int) -> int
    decreases b.len() - p,
{
    if 0 <= p < b.len() && is_ws_byte(b[p]) {
        skip_ws(b, p + 1)
    } else {
        p
    }
}

/// Past the rest of a string literal closed by `quote`, escapes included.
pub open spec fn skip_string(b: Seq<u8>, p: int, quote: u8) -> int
    decreases b.len() - p,
{
    if p < 0 || p >= b.len() {
        p
    } else if b[p] == BACKSLASH {
        skip_string(b, adv(b, p + 1), quote)
    } else if b[p] == quote {
        p + 1
    } else {
        skip_string(b, p + 1, quote)
    }
}

/// Past the end of the line, its line feed included.
pub open spec fn skip_line(b: Seq<u8>, p: int) -> int
    decreases b.len() - p,
{
    if p < 0 || p >= b.len() {
        p
    } else if b[p] == NEWLINE {
        p + 1
    } else {
        skip_line(b, p + 1)
    }
}

/// Reading the rest of a block comment: the position of its closing `*`
/// (none when the comment is unclosed), and where the scanner stands after.
pub open spec fn block_comment(b: Seq<u8>, p: int) -> (Option<int>, int)
    decreases b.len() - p,
{
    if p < 0 || p >= b.len() {
        (None, p)
    } else if b[p] == STAR && peek_at(b, p + 1) == SLASH {
        (Some(p), p + 2)
    } else {
        block_comment(b, p + 1)
    }
}

pub open spec fn is_ident_byte(c: u8) -> bool {
    is_alpha_byte(c) || is_digit_byte(c) || c == UNDERSCORE || c == DOLLAR
}

/// The end of the identifier starting at `p`.
pub open spec fn ident_end(b: Seq<u8>, p: int) -> int
    decreases b.len() - p,
{
    if 0 <= p < b.len() && is_ident_byte(b[p]) {
        ident_end(b, p + 1)
    } else {
        p
    }
}

/// Past the rest of a template literal, interpolations included.
pub open spec fn skip_template(b: Seq<u8>, p: int) -> int
    decreases b.len() - p, 0int,
{
    if p < 0 || p >= b.len() {
        p
    } else if b[p] == BACKTICK {
        p + 1
    } else if b[p] == BACKSLASH {
        skip_template(b, adv(b, p + 1))
    } else if b[p] == DOLLAR && peek_at(b, p + 1) == OPEN_BRACE {
        let q = skip_interp(b, p + 2, 1);
        if p < q <= b.len() {
            skip_template(b, q)
        } else {
            p
        }
    } else {
        skip_template(b, p + 1)
    }
}

/// Past the rest of an interpolation `${ ... }` nested `depth` deep.
pub open spec fn skip_interp(b: Seq<u8>, p: int, depth: nat) -> int
    decreases b.len() - p, 1int,
{
    if p < 0 || p >= b.len() || depth == 0 {
        p
    } else if b[p] == OPEN_BRACE {
        skip_interp(b, p + 1, depth + 1)
    } else if b[p] == CLOSE_BRACE {
        skip_interp(b, p + 1, (depth - 1) as nat)
    } else if b[p] == BACKTICK {
        let q = skip_template(b, p + 1);
        if p < q <= b.len() {
            skip_interp(b, q, depth)
        } else {
            p
        }
    } else if b[p] == DOUBLE_QUOTE || b[p] == SINGLE_QUOTE {
        let q = skip_string(b, p + 1, b[p]);
        if p < q <= b.len() {
            skip_interp(b, q, depth)
        } else {
            p
        }
    } else {
        skip_interp(b, p + 1, depth)
    }
}

/// Reading the rest of a template literal: the position of its closing
/// backtick (none when unclosed), and where the scanner stands after.
pub open spec fn read_template(b: Seq<u8>, p: int) -> (Option<int>, int)
    decreases b.len() - p,
{
    if p < 0 || p >= b.len() {
        (None, p)
    } else if b[p] == BACKTICK {
        (Some(p), p + 1)
    } else if b[p] == BACKSLASH {
        read_template(b, adv(b, p + 1))
    } else if b[p] == DOLLAR && peek_at(b, p + 1) == OPEN_BRACE {
        let q = skip_interp(b, p + 2, 1);
        if p < q <= b.len() {
            read_template(b, q)
        } else {
            (None, p)
        }
    } else {
        read_template(b, p + 1)
    }
}

// ── Bounds ─────────────────────────────────────────────────────────────────

pub proof fn lemma_skip_ws_bounds(b: Seq<u8>, p: int)
    requires
        0 <= p <= b.len(),
    ensures
        p <= skip_ws(b, p) <= b.len(),
        skip_ws(b, p) < b.len() ==> !is_ws_byte(b[skip_ws(b, p)]),
    decreases b.len() - p,
{
    if p < b.len() && is_ws_byte(b[p]) {
        lemma_skip_ws_bounds(b, p + 1);
    }
}

pub proof fn lemma_skip_string_bounds(b: Seq<u8>, p: int, quote: u8)
    requires
        0 <= p <= b.len(),
    ensures
        p <= skip_string(b, p, quote) <= b.len(),
    decreases b.len() - p,
{
    if p < b.len() {
        if b[p] == BACKSLASH {
            lemma_skip_string_bounds(b, adv(b, p + 1), quote);
        } else if b[p] != quote {
            lemma_skip_string_bounds(b, p + 1, quote);
        }
    }
}

pub proof fn lemma_skip_line_bounds(b: Seq<u8>, p: int)
    requires
        0 <= p <= b.len(),
    ensures
        p <= skip_line(b, p) <= b.len(),
    decreases b.len() - p,
{
    if p < b.len() && b[p] != NEWLINE {
        lemma_skip_line_bounds(b, p + 1);
    }
}

pub proof fn lemma_block_comment_bounds(b: Seq<u8>, p: int)
    requires
        0 <= p <= b.len(),
    ensures
        ({
            let (e, q) = block_comment(b, p);
            &&& p <= q <= b.len()
            &&& match e {
                Some(e) => p <= e && q == e + 2 && b[e] == STAR && b[e + 1] == SLASH,
                None => q == b.len(),
            }
        }),
    decreases b.len() - p,
{
    if p < b.len() && !(b[p] == STAR && peek_at(b, p + 1) == SLASH) {
        lemma_block_comment_bounds(b, p + 1);
    }
}

pub proof fn lemma_ident_end_bounds(b: Seq<u8>, p: int)
    requires
        0 <= p <= b.len(),
    ensures
        p <= ident_end(b, p) <= b.len(),
        forall|i: int| p <= i < ident_end(b, p) ==> is_ident_byte(#[trigger] b[i]),
        ident_end(b, p) < b.len() ==> !is_ident_byte(b[ident_end(b, p)]),
    decreases b.len() - p,
{
    if p < b.len() && is_ident_byte(b[p]) {
        lemma_ident_end_bounds(b, p + 1);
    }
}

pub proof fn lemma_skip_template_bounds(b: Seq<u8>, p: int)
    requires
        0 <= p <= b.len(),
    ensures
        p <= skip_template(b, p) <= b.len(),
    decreases b.len() - p, 0int,
{
    if p < b.len() {
        if b[p] == BACKTICK {
        } else if b[p] == BACKSLASH {
            lemma_skip_template_bounds(b, adv(b, p + 1));
        } else if b[p] == DOLLAR && peek_at(b, p + 1) == OPEN_BRACE {
            lemma_skip_interp_bounds(b, p + 2, 1);
            lemma_skip_template_bounds(b, skip_interp(b, p + 2, 1));
        } else {
            lemma_skip_template_bounds(b, p + 1);
        }
    }
}

pub proof fn lemma_skip_interp_bounds(b: Seq<u8>, p: int, depth: nat)
    requires
        0 <= p <= b.len(),
    ensures
        p <= skip_interp(b, p, depth) <= b.len(),
    decreases b.len() - p, 1int,
{
    if p < b.len() && depth != 0 {
        if b[p] == OPEN_BRACE {
            lemma_skip_interp_bounds(b, p + 1, depth + 1);
        } else if b[p] == CLOSE_BRACE {
            lemma_skip_interp_bounds(b, p + 1, (depth - 1) as nat);
        } else if b[p] == BACKTICK {
            lemma_skip_template_bounds(b, p + 1);
            lemma_skip_interp_bounds(b, skip_template(b, p + 1), depth);
        } else if b[p] == DOUBLE_QUOTE || b[p] == SINGLE_QUOTE {
            lemma_skip_string_bounds(b, p + 1, b[p]);
            lemma_skip_interp_bounds(b, skip_string(b, p + 1, b[p]), depth);
        } else {
            lemma_skip_interp_bounds(b, p + 1, depth);
        }
    }
}

pub proof fn lemma_read_template_bounds(b: Seq<u8>, p: int)
    requires
        0 <= p <= b.len(),
    ensures
        ({
            let (e, q) = read_template(b, p);
            &&& p <= q <= b.len()
            &&& match e {
                Some(e) => p <= e && q == e + 1 && b[e] == BACKTICK,
                None => q == b.len(),
            }
        }),
    decreases b.len() - p,
{
    if p < b.len() {
        if b[p] == BACKTICK {
        } else if b[p] == BACKSLASH {
            lemma_read_template_bounds(b, adv(b, p + 1));
        } else if b[p] == DOLLAR && peek_at(b, p + 1) == OPEN_BRACE {
            lemma_skip_interp_bounds(b, p + 2, 1);
            lemma_read_template_bounds(b, skip_interp(b, p + 2, 1));
        } else {
            lemma_read_template_bounds(b, p + 1);
        }
    }
}

// ── Character boundaries ───────────────────────────────────────────────────

/// In valid UTF-8, the byte after an ASCII byte starts a character.
pub proof fn lemma_after_ascii_not_continuation(b: Seq<u8>, i: int)
    requires
        valid_utf8(b),
        0 < i < b.len(),
        b[i - 1] < 0x80,
    ensures
        !is_continuation_byte(b[i]),
{
    is_char_boundary_iff_not_is_continuation_byte(b, i - 1);
    valid_utf8_split(b, i - 1);
    let t = b.subrange(i - 1, b.len() as int);
    assert(t[0] == b[i - 1]);
    assert(t.len() != 0);
    reveal_with_fuel(valid_utf8, 1);
    let x = t.subrange(1, t.len() as int);
    assert(vstd::utf8::pop_first_scalar(t) == x);
    assert(valid_utf8(x));
    assert(x[0] == b[i]);
    assert(is_char_boundary(x, 0));
    is_char_boundary_iff_not_is_continuation_byte(x, 0);
}

/// Positions next to ASCII bytes, and the two ends, are character boundaries.
pub proof fn lemma_boundary_near_ascii(b: Seq<u8>, i: int)
    requires
        valid_utf8(b),
        0 <= i <= b.len(),
        i == b.len() || i == 0 || b[i] < 0x80 || b[i - 1] < 0x80,
    ensures
        is_char_boundary(b, i),
{
    is_char_boundary_start_end_of_seq(b);
    if 0 < i < b.len() {
        if b[i] >= 0x80 {
            lemma_after_ascii_not_continuation(b, i);
        }
        is_char_boundary_iff_not_is_continuation_byte(b, i);
    }
}

/// A character boundary before a boundary `end` is one of `b[..end]` too.
pub proof fn lemma_boundary_in_prefix(b: Seq<u8>, start: int, end: int)
    requires
        valid_utf8(b),
        0 <= start <= end <= b.len(),
        is_char_boundary(b, start),
        is_char_boundary(b, end),
    ensures
        is_char_boundary(b.subrange(0, end), start),
        valid_utf8(b.subrange(0, end)),
{
    valid_utf8_split(b, end);
    let pre = b.subrange(0, end);
    is_char_boundary_start_end_of_seq(pre);
    if start < end {
        is_char_boundary_iff_not_is_continuation_byte(b, start);
        is_char_boundary_iff_not_is_continuation_byte(pre, start);
    }
}

/// Calls `str::split_at` twice: the part of `s` from byte `start` to byte
/// `end`, without copying.
pub fn slice_str<'a>(s: &'a str, start: usize, end: usize) -> (r: &'a str)
    requires
        start <= end <= s.spec_bytes().len(),
        is_char_boundary(s.spec_bytes(), start as int),
        is_char_boundary(s.spec_bytes(), end as int),
    ensures
        r.spec_bytes() == s.spec_bytes().subrange(start as int, end as int),
{
    proof {
        encode_utf8_valid_utf8(s@);
        lemma_boundary_in_prefix(s.spec_bytes(), start as int, end as int);
    }
    let (left, _) = s.split_at(end);
    let (_, mid) = left.split_at(start);
    proof {
        assert(mid.spec_bytes() =~= s.spec_bytes().subrange(start as int, end as int));
    }
    mid
}

// ── The scanner ────────────────────────────────────────────────────────────

/// A single-pass scanner with position tracking.
pub struct Scanner<'a> {
    pub source: &'a str,
    pub bytes: &'a [u8],
    pub pos: usize,
    pub line: usize,
    pub column: usize,
}

impl<'a> Scanner<'a> {
    /// The source bytes.
    pub open spec fn b(&self) -> Seq<u8> {
        self.bytes@
    }

    /// The bytes are those of the source, the position is inside them, and
    /// line and column are those of the position.
    pub open spec fn wf(&self) -> bool {
        &&& self.bytes@ == self.source.spec_bytes()
        &&& self.pos <= self.bytes@.len()
        &&& self.bytes@.len() < usize::MAX
        &&& self.line == line_at(self.bytes@, self.pos as int)
        &&& self.column == column_at(self.bytes@, self.pos as int)
    }

    /// The same source, moved to `p`.
    pub open spec fn moved(&self, old: Scanner<'a>, p: int) -> bool {
        &&& self.wf()
        &&& self.source == old.source
        &&& self.bytes@ == old.bytes@
        &&& self.pos == p
    }

    pub fn new(source: &'a str) -> (r: Self)
        requires
            source.spec_bytes().len() < usize::MAX,
        ensures
            r.wf(),
            r.source == source,
            r.pos == 0,
    {
        Scanner { source, bytes: source.as_bytes(), pos: 0, line: 1, column: 1 }
    }

    #[inline]
    pub fn is_eof(&self) -> (r: bool)
        requires
            self.wf(),
        ensures
            r == (self.pos >= self.b().len()),
    {
        self.pos >= self.bytes.len()
    }

    #[inline]
    pub fn peek(&self) -> (r: u8)
        requires
            self.wf(),
        ensures
            r == peek_at(self.b(), self.pos as int),
    {
        if self.is_eof() {
            0
        } else {
            self.bytes[self.pos]
        }
    }

    #[inline]
    pub fn advance(&mut self) -> (r: u8)
        requires
            old(self).wf(),
        ensures
            final(self).moved(*old(self), adv(old(self).b(), old(self).pos as int)),
            r == peek_at(old(self).b(), old(self).pos as int),
    {
        if self.is_eof() {
            return 0;
        }
        let ch = self.bytes[self.pos];
        proof {
            lemma_line_column_bounds(self.b(), self.pos as int);
        }
        self.pos = self.pos + 1;
        if ch == NEWLINE {
            self.line = self.line + 1;
            self.column = 1;
        } else {
            self.column = self.column + 1;
        }
        ch
    }

    pub fn skip_whitespace(&mut self)
        requires
            old(self).wf(),
        ensures
            final(self).moved(*old(self), skip_ws(old(self).b(), old(self).pos as int)),
    {
        while !self.is_eof() && is_ws_byte_exec(self.peek())
            invariant
                self.wf(),
                self.source == old(self).source,
                self.bytes@ == old(self).bytes@,
                skip_ws(self.b(), self.pos as int) == skip_ws(old(self).b(), old(self).pos as int),
            decreases self.b().len() - self.pos,
        {
            self.advance();
        }
    }

    /// Skip the rest of a string literal closed by `quote`.
    pub fn skip_string(&mut self, quote: u8)
        requires
            old(self).wf(),
        ensures
            final(self).moved(*old(self), skip_string(old(self).b(), old(self).pos as int, quote)),
    {
        while !self.is_eof()
            invariant_except_break
                skip_string(self.b(), self.pos as int, quote) == skip_string(
                    old(self).b(),
                    old(self).pos as int,
                    quote,
                ),
            invariant
                self.wf(),
                self.source == old(self).source,
                self.bytes@ == old(self).bytes@,
            ensures
                self.pos == skip_string(old(self).b(), old(self).pos as int, quote),
            decreases self.b().len() - self.pos,
        {
            let c = self.advance();
            if c == BACKSLASH {
                self.advance();
            } else if c == quote {
                break;
            }
        }
    }

    pub fn skip_line_comment(&mut self)
        requires
            old(self).wf(),
        ensures
            final(self).moved(*old(self), skip_line(old(self).b(), old(self).pos as int)),
    {
        while !self.is_eof()
            invariant_except_break
                skip_line(self.b(), self.pos as int) == skip_line(
                    old(self).b(),
                    old(self).pos as int,
                ),
            invariant
                self.wf(),
                self.source == old(self).source,
                self.bytes@ == old(self).bytes@,
            ensures
                self.pos == skip_line(old(self).b(), old(self).pos as int),
            decreases self.b().len() - self.pos,
        {
            if self.advance() == NEWLINE {
                break;
            }
        }
    }

    /// Read the rest of a block comment; its content when it is closed.
    pub fn read_block_comment(&mut self) -> (r: Option<&'a str>)
        requires
            old(self).wf(),
            old(self).pos == 0 || old(self).b()[old(self).pos - 1] < 0x80,
        ensures
            final(self).moved(*old(self), block_comment(old(self).b(), old(self).pos as int).1),
            match block_comment(old(self).b(), old(self).pos as int).0 {
                Some(e) => r is Some && r->0.spec_bytes() == old(self).b().subrange(
                    old(self).pos as int,
                    e,
                ),
                None => r is None,
            },
    {
        let start = self.pos;
        proof {
            lemma_block_comment_bounds(self.b(), start as int);
        }
        while !self.is_eof()
            invariant
                self.wf(),
                self.source == old(self).source,
                self.bytes@ == old(self).bytes@,
                start == old(self).pos,
                start <= self.pos,
                start == 0 || self.b()[start - 1] < 0x80,
                block_comment(self.b(), self.pos as int) == block_comment(
                    self.b(),
                    start as int,
                ),
            decreases self.b().len() - self.pos,
        {
            let ch = self.advance();
            if ch == STAR && self.peek() == SLASH {
                let end = self.pos - 1;
                self.advance();
                proof {
                    encode_utf8_valid_utf8(self.source@);
                    lemma_boundary_near_ascii(self.b(), start as int);
                    lemma_boundary_near_ascii(self.b(), end as int);
                }
                return Some(slice_str(self.source, start, end));
            }
        }
        None
    }

    /// Move past the identifier at the current position; returns its end.
    pub fn read_identifier(&mut self) -> (r: usize)
        requires
            old(self).wf(),
        ensures
            final(self).moved(*old(self), ident_end(old(self).b(), old(self).pos as int)),
            r == final(self).pos,
    {
        while !self.is_eof()
            invariant_except_break
                ident_end(self.b(), self.pos as int) == ident_end(
                    old(self).b(),
                    old(self).pos as int,
                ),
            invariant
                self.wf(),
                self.source == old(self).source,
                self.bytes@ == old(self).bytes@,
            ensures
                self.pos == ident_end(old(self).b(), old(self).pos as int),
            decreases self.b().len() - self.pos,
        {
            let ch = self.peek();
            if is_alpha_byte_exec(ch) || is_digit_byte_exec(ch) || ch == UNDERSCORE || ch
                == DOLLAR {
                self.advance();
            } else {
                break;
            }
        }
        self.pos
    }

    /// Read the rest of a template literal; its raw content, interpolations
    /// included, when it is closed.
    pub fn read_template_literal(&mut self) -> (r: Option<&'a str>)
        requires
            old(self).wf(),
            old(self).pos == 0 || old(self).b()[old(self).pos - 1] < 0x80,
        ensures
            final(self).moved(*old(self), read_template(old(self).b(), old(self).pos as int).1),
            match read_template(old(self).b(), old(self).pos as int).0 {
                Some(e) => r is Some && r->0.spec_bytes() == old(self).b().subrange(
                    old(self).pos as int,
                    e,
                ),
                None => r is None,
            },
    {
        let start = self.pos;
        proof {
            lemma_read_template_bounds(self.b(), start as int);
        }
        while !self.is_eof()
            invariant
                self.wf(),
                self.source == old(self).source,
                self.bytes@ == old(self).bytes@,
                start == old(self).pos,
                start <= self.pos,
                start == 0 || self.b()[start - 1] < 0x80,
                read_template(self.b(), self.pos as int) == read_template(
                    self.b(),
                    start as int,
                ),
            decreases self.b().len() - self.pos,
        {
            let p = self.pos;
            let ch = self.advance();
            if ch == BACKTICK {
                let end = self.pos - 1;
                proof {
                    encode_utf8_valid_utf8(self.source@);
                    lemma_boundary_near_ascii(self.b(), start as int);
                    lemma_boundary_near_ascii(self.b(), end as int);
                }
                return Some(slice_str(self.source, start, end));
            } else if ch == BACKSLASH {
                self.advance();
            } else if ch == DOLLAR && self.peek() == OPEN_BRACE {
                self.advance();
                proof {
                    lemma_skip_interp_bounds(self.b(), p + 2, 1);
                }
                self.skip_interpolation();
            }
        }
        None
    }

    /// Skip a template literal without capturing it.
    pub fn skip_template_literal(&mut self)
        requires
            old(self).wf(),
        ensures
            final(self).moved(*old(self), skip_template(old(self).b(), old(self).pos as int)),
        decreases old(self).b().len() - old(self).pos, 0int,
    {
        while !self.is_eof()
            invariant_except_break
                skip_template(self.b(), self.pos as int) == skip_template(
                    old(self).b(),
                    old(self).pos as int,
                ),
            invariant
                self.wf(),
                self.source == old(self).source,
                self.bytes@ == old(self).bytes@,
                old(self).pos <= self.pos,
            ensures
                self.pos == skip_template(old(self).b(), old(self).pos as int),
            decreases self.b().len() - self.pos,
        {
            let p = self.pos;
            let ch = self.advance();
            if ch == BACKTICK {
                break;
            } else if ch == BACKSLASH {
                self.advance();
            } else if ch == DOLLAR && self.peek() == OPEN_BRACE {
                self.advance();
                proof {
                    lemma_skip_interp_bounds(self.b(), p + 2, 1);
                }
                self.skip_interpolation();
            }
        }
    }

    /// Skip the rest of an interpolation `${ ... }`, nested template literals
    /// and strings included.
    pub fn skip_interpolation(&mut self)
        requires
            old(self).wf(),
            old(self).pos >= 1,
        ensures
            final(self).moved(*old(self), skip_interp(old(self).b(), old(self).pos as int, 1)),
        decreases old(self).b().len() - old(self).pos, 1int,
    {
        let mut depth: usize = 1;
        while !self.is_eof() && depth > 0
            invariant
                self.wf(),
                self.source == old(self).source,
                self.bytes@ == old(self).bytes@,
                old(self).pos <= self.pos,
                1 <= self.pos,
                depth <= self.pos,
                skip_interp(self.b(), self.pos as int, depth as nat) == skip_interp(
                    old(self).b(),
                    old(self).pos as int,
                    1,
                ),
            decreases self.b().len() - self.pos,
        {
            let p = self.pos;
            let ch = self.advance();
            if ch == OPEN_BRACE {
                depth = depth + 1;
            } else if ch == CLOSE_BRACE {
                depth = depth - 1;
            } else if ch == BACKTICK {
                proof {
                    lemma_skip_template_bounds(self.b(), p + 1);
                }
                self.skip_template_literal();
            } else if ch == DOUBLE_QUOTE || ch == SINGLE_QUOTE {
                proof {
                    lemma_skip_string_bounds(self.b(), p + 1, ch);
                }
                self.skip_string(ch);
            }
        }
    }
}

// ── Templates with interpolations ──────────────────────────────────────────

/// A byte of template text outside interpolations that needs no special
/// reading: not a backtick, a backslash or a `$`.
pub open spec fn plain_text_byte(c: u8) -> bool {
    c != BACKTICK && c != BACKSLASH && c != DOLLAR
}

/// A byte inside an interpolation that needs no special reading: not a
/// brace, a backtick or a quote.
pub open spec fn plain_interp_byte(c: u8) -> bool {
    c != OPEN_BRACE && c != CLOSE_BRACE && c != BACKTICK && c != DOUBLE_QUOTE && c != SINGLE_QUOTE
}

/// Whether `t` from `i` on is template text made of plain bytes and
/// interpolations `${...}` whose contents are plain.
pub open spec fn simple_template(t: Seq<u8>, i: int) -> bool
    decreases t.len() - i, 1int,
{
    if i < 0 {
        false
    } else if i >= t.len() {
        true
    } else if t[i] == DOLLAR {
        i + 1 < t.len() && t[i + 1] == OPEN_BRACE && simple_interp(t, i + 2)
    } else {
        plain_text_byte(t[i]) && simple_template(t, i + 1)
    }
}

/// Whether `t` from `i` on is the plain rest of an interpolation, closed by
/// `}`, followed by simple template text.
pub open spec fn simple_interp(t: Seq<u8>, i: int) -> bool
    decreases t.len() - i, 0int,
{
    if i < 0 || i >= t.len() {
        false
    } else if t[i] == CLOSE_BRACE {
        simple_template(t, i + 1)
    } else {
        plain_interp_byte(t[i]) && simple_interp(t, i + 1)
    }
}

/// The position of the `}` that closes the interpolation read from `i`.
pub open spec fn interp_close(t: Seq<u8>, i: int) -> int
    decreases t.len() - i,
{
    if i < 0 || i >= t.len() || t[i] == CLOSE_BRACE {
        i
    } else {
        interp_close(t, i + 1)
    }
}

proof fn lemma_read_simple_template(b: Seq<u8>, p: int, n: int, i: int)
    requires
        0 <= p,
        0 <= i <= n,
        p + n < b.len(),
        b[p + n] == BACKTICK,
        simple_template(b.subrange(p, p + n), i),
    ensures
        read_template(b, p + i) == (Some(p + n), p + n + 1),
    decreases n - i, 1int,
{
    let t = b.subrange(p, p + n);
    if i < n {
        assert(t[i] == b[p + i]);
        if t[i] == DOLLAR {
            assert(t[i + 1] == b[p + i + 1]);
            lemma_skip_simple_interp(b, p, n, i + 2);
            let c = interp_close(t, i + 2);
            lemma_read_simple_template(b, p, n, c + 1);
        } else {
            lemma_read_simple_template(b, p, n, i + 1);
        }
    }
}

proof fn lemma_skip_simple_interp(b: Seq<u8>, p: int, n: int, i: int)
    requires
        0 <= p,
        0 <= i <= n,
        p + n < b.len(),
        b[p + n] == BACKTICK,
        simple_interp(b.subrange(p, p + n), i),
    ensures
        i <= interp_close(b.subrange(p, p + n), i) < n,
        simple_template(b.subrange(p, p + n), interp_close(b.subrange(p, p + n), i) + 1),
        skip_interp(b, p + i, 1) == p + interp_close(b.subrange(p, p + n), i) + 1,
    decreases n - i, 0int,
{
    let t = b.subrange(p, p + n);
    assert(t[i] == b[p + i]);
    if t[i] != CLOSE_BRACE {
        lemma_skip_simple_interp(b, p, n, i + 1);
        assert(skip_interp(b, p + i, 1) == skip_interp(b, p + i + 1, 1));
    } else {
        assert(skip_interp(b, p + i + 1, 0) == p + i + 1);
        assert(skip_interp(b, p + i, 1) == skip_interp(b, p + i + 1, 0));
    }
}

/// A template whose text is plain bytes and interpolations `${...}` with
/// plain contents is read whole: reading from its first byte stops at the
/// backtick that closes it, interpolations included, and the scanner stands
/// just past that backtick.
pub proof fn law_template_read_whole(b: Seq<u8>, p: int, n: int)
    requires
        0 <= p,
        0 <= n,
        p + n < b.len(),
        b[p + n] == BACKTICK,
        simple_template(b.subrange(p, p + n), 0),
    ensures
        read_template(b, p) == (Some(p + n), p + n + 1),
{
    lemma_read_simple_template(b, p, n, 0);
}

} // verus!
