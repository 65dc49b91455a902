//! Text rendering of diagnostics.
//!
//! A diagnostic renders as a header line `[Label]: message`; when it has a
//! location, as a snippet of the source around that location (previous,
//! current and next line, with a caret line under the current one), or as
//! the bare `file:line:column` when the source is not known; then a note for
//! each related location.
use vstd::prelude::*;

use super::{Diagnostic, DiagnosticLocation, Diagnostics, RelatedLocation, Severity};
use crate::text::{chars_of, push_char, push_str, string_from_chars};

verus! {

// ── Styles ──────────────────────────────────────────────────────────────────

/// When to use ANSI colors.
#[derive(Debug, Clone, Copy, PartialEq, Eq, Structural)]
pub enum Color {
    /// Do not use colors.
    Never,
    /// Use colors if stderr is a terminal.
    StderrIsTerminal,
}

/// The escape sequences that the renderer interleaves with the text.
#[derive(Debug, Clone, Copy)]
pub struct Styles {
    pub bold: &'static str,
    pub red: &'static str,
    pub yellow: &'static str,
    pub cyan: &'static str,
    pub dim: &'static str,
    pub underline: &'static str,
    pub reset: &'static str,
}

/// Styles that emit nothing.
pub open spec fn plain() -> Styles {
    Styles { bold: "", red: "", yellow: "", cyan: "", dim: "", underline: "", reset: "" }
}

/// Styles that emit the ANSI sequences.
pub open spec fn colored() -> Styles {
    Styles {
        bold: "\x1b[1m",
        red: "\x1b[31m",
        yellow: "\x1b[33m",
        cyan: "\x1b[36m",
        dim: "\x1b[2m",
        underline: "\x1b[4m",
        reset: "\x1b[0m",
    }
}

/// The styles for a color choice: colored only when colors are allowed and
/// stderr is a terminal.
pub open spec fn styles_spec(color: Color, stderr_is_terminal: bool) -> Styles {
    if color == Color::StderrIsTerminal && stderr_is_terminal {
        colored()
    } else {
        plain()
    }
}

pub fn plain_styles() -> (r: Styles)
    ensures
        r == plain(),
{
    Styles { bold: "", red: "", yellow: "", cyan: "", dim: "", underline: "", reset: "" }
}

pub fn colored_styles() -> (r: Styles)
    ensures
        r == colored(),
{
    Styles {
        bold: "\x1b[1m",
        red: "\x1b[31m",
        yellow: "\x1b[33m",
        cyan: "\x1b[36m",
        dim: "\x1b[2m",
        underline: "\x1b[4m",
        reset: "\x1b[0m",
    }
}

pub fn styles_for(color: Color, stderr_is_terminal: bool) -> (r: Styles)
    ensures
        r == styles_spec(color, stderr_is_terminal),
{
    match color {
        Color::Never => plain_styles(),
        Color::StderrIsTerminal => {
            if stderr_is_terminal {
                colored_styles()
            } else {
                plain_styles()
            }
        },
    }
}

// ── Numbers and padding ─────────────────────────────────────────────────────

/// The character of a decimal digit.
pub open spec fn digit_char(d: nat) -> char {
    (48 + d) as char
}

/// The decimal representation of `n`.
pub open spec fn decimal(n: nat) -> Seq<char>
    decreases n,
{
    if n < 10 {
        seq![digit_char(n)]
    } else {
        decimal(n / 10).push(digit_char(n % 10))
    }
}

/// The number of decimal digits of `n`.
pub open spec fn num_digits(n: nat) -> nat
    decreases n,
{
    if n < 10 {
        1
    } else {
        1 + num_digits(n / 10)
    }
}

/// `n` copies of `c`.
pub open spec fn repeat(c: char, n: nat) -> Seq<char> {
    Seq::new(n, |i: int| c)
}

/// `t` right-aligned in a field of `width` characters.
pub open spec fn pad_left(t: Seq<char>, width: nat) -> Seq<char> {
    if t.len() < width {
        repeat(' ', (width - t.len()) as nat) + t
    } else {
        t
    }
}

pub proof fn lemma_decimal_len(n: nat)
    ensures
        decimal(n).len() == num_digits(n),
        1 <= num_digits(n),
        n >= 1 ==> num_digits(n) <= n,
    decreases n,
{
    if n >= 10 {
        lemma_decimal_len(n / 10);
    }
}

/// The number of decimal digits of `n`.
pub fn digit_count(n: usize) -> (r: usize)
    ensures
        r == num_digits(n as nat),
{
    if n == 0 {
        return 1;
    }
    proof {
        lemma_decimal_len(n as nat);
    }
    let mut count: usize = 0;
    let mut val: usize = n;
    while val > 0
        invariant
            val > 0 ==> count + num_digits(val as nat) == num_digits(n as nat),
            val == 0 ==> count == num_digits(n as nat),
            num_digits(n as nat) <= n,
        decreases val,
    {
        proof {
            lemma_decimal_len(val as nat);
        }
        count = count + 1;
        val = val / 10;
    }
    count
}

fn digit_char_exec(d: usize) -> (r: char)
    requires
        d < 10,
    ensures
        r == digit_char(d as nat),
{
    let b: u8 = (48 + d) as u8;
    b as char
}

/// Appends the decimal representation of `n`.
fn push_decimal(out: &mut String, n: usize)
    ensures
        final(out)@ == old(out)@ + decimal(n as nat),
    decreases n,
{
    if n >= 10 {
        push_decimal(out, n / 10);
    }
    push_char(out, digit_char_exec(n % 10));
    proof {
        assert(out@ =~= old(out)@ + decimal(n as nat));
    }
}

/// The decimal representation of `n`.
pub fn decimal_string(n: usize) -> (r: String)
    ensures
        r@ == decimal(n as nat),
{
    let mut out = String::new();
    push_decimal(&mut out, n);
    proof {
        assert(out@ =~= decimal(n as nat));
    }
    out
}

/// Appends `n` copies of `c`.
pub(crate) fn push_repeat(out: &mut String, c: char, n: usize)
    ensures
        final(out)@ == old(out)@ + repeat(c, n as nat),
{
    let mut i: usize = 0;
    while i < n
        invariant
            i <= n,
            out@ == old(out)@ + repeat(c, i as nat),
        decreases n - i,
    {
        push_char(out, c);
        i = i + 1;
        proof {
            assert(out@ =~= old(out)@ + repeat(c, i as nat));
        }
    }
}

/// Appends `n` right-aligned in a field of `width` characters.
fn push_padded_decimal(out: &mut String, n: usize, width: usize)
    ensures
        final(out)@ == old(out)@ + pad_left(decimal(n as nat), width as nat),
{
    proof {
        lemma_decimal_len(n as nat);
    }
    let len = digit_count(n);
    if len < width {
        push_repeat(out, ' ', width - len);
    }
    push_decimal(out, n);
    proof {
        assert(final(out)@ =~= old(out)@ + pad_left(decimal(n as nat), width as nat));
    }
}

// ── Lines ───────────────────────────────────────────────────────────────────

/// The position of the first line feed at or after `i`, or the length.
pub open spec fn next_newline(s: Seq<char>, i: int) -> int
    decreases s.len() - i,
{
    if i < 0 || i >= s.len() {
        s.len() as int
    } else if s[i] == '\n' {
        i
    } else {
        next_newline(s, i + 1)
    }
}

/// The line from `i` to the line feed at `e`, without the carriage return
/// that precedes a line feed.
pub open spec fn line_text(s: Seq<char>, i: int, e: int) -> Seq<char> {
    let l = s.subrange(i, e);
    if e < s.len() && l.len() > 0 && l.last() == '\r' {
        l.drop_last()
    } else {
        l
    }
}

pub proof fn lemma_next_newline_bounds(s: Seq<char>, i: int)
    requires
        0 <= i <= s.len(),
    ensures
        i <= next_newline(s, i) <= s.len(),
        next_newline(s, i) < s.len() ==> s[next_newline(s, i)] == '\n',
        forall|k: int| i <= k < next_newline(s, i) ==> s[k] != '\n',
    decreases s.len() - i,
{
    if i < s.len() && s[i] != '\n' {
        lemma_next_newline_bounds(s, i + 1);
    }
}

/// The lines of `s` from position `i` on (`str::lines`): split at line
/// feeds, a carriage return before a line feed dropped, and no empty line
/// after a final line feed.
pub open spec fn lines_from(s: Seq<char>, i: int) -> Seq<Seq<char>>
    decreases s.len() - i,
    via lines_from_decreases
{
    if i < 0 || i >= s.len() {
        Seq::empty()
    } else {
        let e = next_newline(s, i);
        let rest = if e < s.len() {
            lines_from(s, e + 1)
        } else {
            Seq::empty()
        };
        seq![line_text(s, i, e)] + rest
    }
}

#[via_fn]
proof fn lines_from_decreases(s: Seq<char>, i: int) {
    if 0 <= i < s.len() {
        lemma_next_newline_bounds(s, i);
    }
}

/// The lines of `s`.
pub open spec fn lines_of(s: Seq<char>) -> Seq<Seq<char>> {
    lines_from(s, 0)
}

pub open spec fn views(v: Seq<String>) -> Seq<Seq<char>> {
    v.map_values(|l: String| l@)
}

/// The lines of the given characters (`str::lines`).
pub fn split_lines(cs: &Vec<char>) -> (r: Vec<String>)
    ensures
        views(r@) == lines_of(cs@),
{
    let ghost s = cs@;
    let n = cs.len();
    let mut lines: Vec<String> = Vec::new();
    let mut i: usize = 0;
    while i < n
        invariant
            n == s.len(),
            s == cs@,
            i <= n,
            views(lines@) + lines_from(s, i as int) == lines_of(s),
        decreases n - i,
    {
        let mut e: usize = i;
        while e < n && cs[e] != '\n'
            invariant
                n == s.len(),
                s == cs@,
                i <= e <= n,
                next_newline(s, e as int) == next_newline(s, i as int),
            decreases n - e,
        {
            e = e + 1;
        }
        proof {
            lemma_next_newline_bounds(s, i as int);
        }
        let mut end = e;
        if e < n && end > i && cs[end - 1] == '\r' {
            end = end - 1;
        }
        let line = string_from_chars(cs, i, end);
        proof {
            assert(line@ == line_text(s, i as int, e as int));
        }
        lines.push(line);
        let next = if e < n {
            e + 1
        } else {
            n
        };
        proof {
            assert(lines_from(s, i as int) == seq![line_text(s, i as int, e as int)] + lines_from(s, next as int));
            assert(views(lines@) =~= views(lines@.drop_last()).push(line@));
            assert(views(lines@) + lines_from(s, next as int) =~= views(lines@.drop_last()) + lines_from(s, i as int));
        }
        i = next;
    }
    proof {
        assert(views(lines@) =~= lines_of(s));
    }
    lines
}

// ── Rendering specification ────────────────────────────────────────────────

/// The gutter separator.
pub const BAR: char = '\u{2502}';

pub open spec fn sat_sub1(n: nat) -> nat {
    if n >= 1 {
        (n - 1) as nat
    } else {
        0
    }
}

/// The part of the gutter before its cell: two spaces and bold.
pub open spec fn gutter_open(s: Styles) -> Seq<char> {
    seq![' ', ' '] + s.bold@
}

/// The part of the gutter after its cell: ` {dim}│{reset} `.
pub open spec fn gutter_close(s: Styles) -> Seq<char> {
    s.reset@ + seq![' '] + s.dim@ + seq![BAR] + s.reset@ + seq![' ']
}

/// A source line: `  {bold}{num:>gutter}{reset} {dim}│{reset} {hl}{text}{reset}`.
pub open spec fn source_line_text(
    line_num: nat,
    text: Seq<char>,
    gutter: nat,
    s: Styles,
    hl: Seq<char>,
) -> Seq<char> {
    gutter_open(s) + pad_left(decimal(line_num), gutter) + gutter_close(s) + hl + text + s.reset@
        + seq!['\n']
}

/// ` {underline}{file}{reset}{dim}:{line}:{column}{reset}`
pub open spec fn location_text(loc: DiagnosticLocation, s: Styles) -> Seq<char> {
    seq![' '] + s.underline@ + loc.file@ + s.reset@ + s.dim@ + seq![':'] + decimal(loc.line as nat)
        + seq![':'] + decimal(loc.column as nat) + s.reset@
}

/// The number of carets under a location.
pub open spec fn caret_count(loc: DiagnosticLocation) -> nat {
    match loc.length {
        Some(n) => n as nat,
        None => 1,
    }
}

/// The caret line under the current line.
pub open spec fn caret_line_text(loc: DiagnosticLocation, gutter: nat, color: Seq<char>, s: Styles) -> Seq<char> {
    gutter_open(s) + repeat(' ', gutter) + gutter_close(s) + repeat(' ', sat_sub1(loc.column as nat))
        + color + s.bold@ + repeat('^', caret_count(loc)) + s.reset@ + seq!['\n']
}

/// The gutter width of a snippet: the digits of the last line number shown.
pub open spec fn gutter_width(loc: DiagnosticLocation, n_lines: nat) -> nat {
    let last = loc.line + 1;
    num_digits(
        if last < n_lines {
            last as nat
        } else {
            n_lines
        },
    )
}

/// A snippet: the location, the line before, the current line highlighted,
/// the caret line and the line after, framed by empty lines.
pub open spec fn snippet_text(loc: DiagnosticLocation, source: Seq<char>, color: Seq<char>, s: Styles) -> Seq<char> {
    let lines = lines_of(source);
    let line = loc.line as nat;
    let idx = sat_sub1(line);
    let gutter = gutter_width(loc, lines.len());
    let prev = if line >= 2 && idx - 1 < lines.len() {
        source_line_text((line - 1) as nat, lines[idx - 1], gutter, s, Seq::empty())
    } else {
        Seq::empty()
    };
    let cur = if idx < lines.len() {
        source_line_text(line, lines[idx as int], gutter, s, color + s.bold@)
    } else {
        Seq::empty()
    };
    let next = if idx + 1 < lines.len() {
        source_line_text(line + 1, lines[idx + 1 as int], gutter, s, Seq::empty())
    } else {
        Seq::empty()
    };
    seq!['\n'] + location_text(loc, s) + seq!['\n'] + prev + cur + caret_line_text(loc, gutter, color, s)
        + next + seq!['\n']
}

pub open spec fn severity_color(sev: Severity, s: Styles) -> Seq<char> {
    match sev {
        Severity::Info => s.cyan@,
        Severity::Warning => s.yellow@,
        Severity::Error => s.red@,
        Severity::Internal => s.red@,
    }
}

pub open spec fn severity_label(sev: Severity) -> Seq<char> {
    match sev {
        Severity::Info => "Info"@,
        Severity::Warning => "Warning"@,
        Severity::Error => "Error"@,
        Severity::Internal => "Internal Error"@,
    }
}

/// The note of a related location, with its snippet when its source is known.
pub open spec fn note_text(r: RelatedLocation, s: Styles) -> Seq<char> {
    let note = seq![' '] + s.dim@ + "= note: "@ + r.message@ + s.reset@ + seq!['\n'];
    match r.inline_source {
        Some(src) => note + snippet_text(r.location, src@, s.dim@, s),
        None => note,
    }
}

/// The notes of the related locations, in order.
pub open spec fn notes_text(rs: Seq<RelatedLocation>, s: Styles) -> Seq<char>
    decreases rs.len(),
{
    if rs.len() == 0 {
        Seq::empty()
    } else {
        notes_text(rs.drop_last(), s) + note_text(rs.last(), s)
    }
}

/// The header line of a diagnostic: `{color}{bold}[{label}]: {message}{reset}`.
pub open spec fn header_text(d: Diagnostic, s: Styles) -> Seq<char> {
    severity_color(d.severity, s) + s.bold@ + seq!['['] + severity_label(d.severity) + seq![
        ']',
        ':',
        ' ',
    ] + d.message@ + s.reset@ + seq!['\n']
}

/// Where a diagnostic points: its snippet, or its bare location when its
/// source is not known.
pub open spec fn place_text(d: Diagnostic, s: Styles) -> Seq<char> {
    match d.location {
        Some(loc) => match d.inline_source {
            Some(src) => snippet_text(loc, src@, severity_color(d.severity, s), s),
            None => location_text(loc, s) + seq!['\n', '\n'],
        },
        None => Seq::empty(),
    }
}

/// A rendered diagnostic.
pub open spec fn diagnostic_text(d: Diagnostic, s: Styles) -> Seq<char> {
    header_text(d, s) + place_text(d, s) + notes_text(d.related@, s)
}

/// Whether every snippet of a diagnostic can be rendered: the line after
/// each location with source must have a number.
pub open spec fn renderable(d: Diagnostic) -> bool {
    &&& (d.location matches Some(loc) ==> (d.inline_source is Some ==> loc.line < usize::MAX))
    &&& forall|i: int|
        0 <= i < d.related@.len() && (#[trigger] d.related@[i]).inline_source is Some
            ==> d.related@[i].location.line < usize::MAX
}

// ── Rendering ──────────────────────────────────────────────────────────────

proof fn lemma_append_assoc(o: Seq<char>, a: Seq<char>, b: Seq<char>)
    ensures
        (o + a) + b == o + (a + b),
{
    assert((o + a) + b =~= o + (a + b));
}

fn push_gutter_open(out: &mut String, s: &Styles)
    ensures
        final(out)@ == old(out)@ + gutter_open(*s),
{
    push_char(out, ' ');
    push_char(out, ' ');
    push_str(out, s.bold);
    proof {
        assert(final(out)@ =~= old(out)@ + gutter_open(*s));
    }
}

fn push_gutter_close(out: &mut String, s: &Styles)
    ensures
        final(out)@ == old(out)@ + gutter_close(*s),
{
    push_str(out, s.reset);
    push_char(out, ' ');
    push_str(out, s.dim);
    push_char(out, BAR);
    push_str(out, s.reset);
    push_char(out, ' ');
    proof {
        assert(final(out)@ =~= old(out)@ + gutter_close(*s));
    }
}

fn push_source_line(out: &mut String, line_num: usize, text: &str, gutter: usize, s: &Styles, hl: &str)
    ensures
        final(out)@ == old(out)@ + source_line_text(line_num as nat, text@, gutter as nat, *s, hl@),
{
    push_gutter_open(out, s);
    push_padded_decimal(out, line_num, gutter);
    push_gutter_close(out, s);
    push_str(out, hl);
    push_str(out, text);
    push_str(out, s.reset);
    push_char(out, '\n');
    proof {
        assert(final(out)@ =~= old(out)@ + source_line_text(line_num as nat, text@, gutter as nat, *s, hl@));
    }
}

fn push_location(out: &mut String, loc: &DiagnosticLocation, s: &Styles)
    ensures
        final(out)@ == old(out)@ + location_text(*loc, *s),
{
    push_char(out, ' ');
    push_str(out, s.underline);
    push_str(out, loc.file.as_str());
    push_str(out, s.reset);
    push_str(out, s.dim);
    push_char(out, ':');
    push_decimal(out, loc.line);
    push_char(out, ':');
    push_decimal(out, loc.column);
    push_str(out, s.reset);
    proof {
        assert(final(out)@ =~= old(out)@ + location_text(*loc, *s));
    }
}

fn push_caret_line(out: &mut String, loc: &DiagnosticLocation, gutter: usize, color: &str, s: &Styles)
    ensures
        final(out)@ == old(out)@ + caret_line_text(*loc, gutter as nat, color@, *s),
{
    push_gutter_open(out, s);
    push_repeat(out, ' ', gutter);
    push_gutter_close(out, s);
    let col = if loc.column >= 1 {
        loc.column - 1
    } else {
        0
    };
    push_repeat(out, ' ', col);
    push_str(out, color);
    push_str(out, s.bold);
    let carets = match loc.length {
        Some(n) => n,
        None => 1,
    };
    push_repeat(out, '^', carets);
    push_str(out, s.reset);
    push_char(out, '\n');
    proof {
        assert(final(out)@ =~= old(out)@ + caret_line_text(*loc, gutter as nat, color@, *s));
    }
}

/// Appends a source snippet with line context and caret indicator.
fn push_snippet(out: &mut String, loc: &DiagnosticLocation, source: &str, color: &str, s: &Styles)
    requires
        loc.line < usize::MAX,
    ensures
        final(out)@ == old(out)@ + snippet_text(*loc, source@, color@, *s),
{
    proof {
        reveal_strlit("");
    }
    let ghost o = out@;
    let ghost lines_spec = lines_of(source@);
    push_char(out, '\n');
    push_location(out, loc, s);
    push_char(out, '\n');
    let ghost head = seq!['\n'] + location_text(*loc, *s) + seq!['\n'];
    assert(out@ =~= o + head);
    let cs = chars_of(source);
    let lines = split_lines(&cs);
    assert(lines@.len() == lines_spec.len());
    let line_idx = if loc.line >= 1 {
        loc.line - 1
    } else {
        0
    };
    let last = loc.line + 1;
    let max_shown = if last < lines.len() {
        last
    } else {
        lines.len()
    };
    let gutter = digit_count(max_shown);
    let mut hl = String::new();
    push_str(&mut hl, color);
    push_str(&mut hl, s.bold);
    let ghost gw = gutter_width(*loc, lines_spec.len());
    assert(gutter == gw);
    let ghost line = loc.line as nat;
    let ghost idx = sat_sub1(line);
    let ghost prev = if line >= 2 && idx - 1 < lines_spec.len() {
        source_line_text((line - 1) as nat, lines_spec[idx - 1], gw, *s, Seq::empty())
    } else {
        Seq::empty()
    };
    let ghost cur = if idx < lines_spec.len() {
        source_line_text(line, lines_spec[idx as int], gw, *s, color@ + s.bold@)
    } else {
        Seq::empty()
    };
    let ghost next = if idx + 1 < lines_spec.len() {
        source_line_text(line + 1, lines_spec[idx + 1 as int], gw, *s, Seq::empty())
    } else {
        Seq::empty()
    };
    if loc.line >= 2 && line_idx - 1 < lines.len() {
        assert(lines@[line_idx - 1]@ == lines_spec[line_idx - 1]);
        push_source_line(out, loc.line - 1, lines[line_idx - 1].as_str(), gutter, s, "");
    } else {
        assert(out@ =~= o + head + prev);
    }
    proof {
        lemma_append_assoc(o, head, prev);
    }
    let ghost a1 = head + prev;
    if line_idx < lines.len() {
        assert(lines@[line_idx as int]@ == lines_spec[line_idx as int]);
        push_source_line(out, loc.line, lines[line_idx].as_str(), gutter, s, hl.as_str());
    } else {
        assert(out@ =~= o + a1 + cur);
    }
    proof {
        lemma_append_assoc(o, a1, cur);
    }
    let ghost a2 = a1 + cur;
    push_caret_line(out, loc, gutter, color, s);
    proof {
        lemma_append_assoc(o, a2, caret_line_text(*loc, gw, color@, *s));
    }
    let ghost a3 = a2 + caret_line_text(*loc, gw, color@, *s);
    if line_idx + 1 < lines.len() {
        assert(lines@[line_idx + 1]@ == lines_spec[line_idx + 1]);
        push_source_line(out, loc.line + 1, lines[line_idx + 1].as_str(), gutter, s, "");
    } else {
        assert(out@ =~= o + a3 + next);
    }
    proof {
        lemma_append_assoc(o, a3, next);
    }
    let ghost a4 = a3 + next;
    push_char(out, '\n');
    proof {
        assert(final(out)@ =~= o + (a4 + seq!['\n']));
        assert(a4 + seq!['\n'] == snippet_text(*loc, source@, color@, *s));
    }
}

fn push_note(out: &mut String, r: &RelatedLocation, s: &Styles)
    requires
        r.inline_source is Some ==> r.location.line < usize::MAX,
    ensures
        final(out)@ == old(out)@ + note_text(*r, *s),
{
    let ghost o = out@;
    push_char(out, ' ');
    push_str(out, s.dim);
    push_str(out, "= note: ");
    push_str(out, r.message.as_str());
    push_str(out, s.reset);
    push_char(out, '\n');
    let ghost note = seq![' '] + s.dim@ + "= note: "@ + r.message@ + s.reset@ + seq!['\n'];
    assert(out@ =~= o + note);
    match &r.inline_source {
        Some(src) => {
            push_snippet(out, &r.location, src.as_str(), s.dim, s);
            proof {
                lemma_append_assoc(o, note, snippet_text(r.location, src@, s.dim@, *s));
            }
        },
        None => {},
    }
}

fn push_header(out: &mut String, d: &Diagnostic, s: &Styles) -> (color: &'static str)
    ensures
        final(out)@ == old(out)@ + header_text(*d, *s),
        color@ == severity_color(d.severity, *s),
{
    let color: &str = match d.severity {
        Severity::Info => s.cyan,
        Severity::Warning => s.yellow,
        Severity::Error => s.red,
        Severity::Internal => s.red,
    };
    let label: &str = match d.severity {
        Severity::Info => "Info",
        Severity::Warning => "Warning",
        Severity::Error => "Error",
        Severity::Internal => "Internal Error",
    };
    push_str(out, color);
    push_str(out, s.bold);
    push_char(out, '[');
    push_str(out, label);
    push_char(out, ']');
    push_char(out, ':');
    push_char(out, ' ');
    push_str(out, d.message.as_str());
    push_str(out, s.reset);
    push_char(out, '\n');
    proof {
        assert(final(out)@ =~= old(out)@ + header_text(*d, *s));
    }
    color
}

/// Appends a rendered diagnostic.
fn push_diagnostic(out: &mut String, d: &Diagnostic, s: &Styles)
    requires
        renderable(*d),
    ensures
        final(out)@ == old(out)@ + diagnostic_text(*d, *s),
{
    let ghost o = out@;
    let color = push_header(out, d, s);
    let ghost head = header_text(*d, *s);
    match &d.location {
        Some(loc) => match &d.inline_source {
            Some(src) => {
                push_snippet(out, loc, src.as_str(), color, s);
            },
            None => {
                push_location(out, loc, s);
                push_char(out, '\n');
                push_char(out, '\n');
                proof {
                    assert(out@ =~= o + head + place_text(*d, *s));
                }
            },
        },
        None => {
            assert(out@ =~= o + head + place_text(*d, *s));
        },
    }
    proof {
        lemma_append_assoc(o, head, place_text(*d, *s));
    }
    let ghost placed = head + place_text(*d, *s);
    let mut k: usize = 0;
    while k < d.related.len()
        invariant
            k <= d.related@.len(),
            renderable(*d),
            out@ == o + (placed + notes_text(d.related@.subrange(0, k as int), *s)),
        decreases d.related@.len() - k,
    {
        let ghost before = out@;
        push_note(out, &d.related[k], s);
        proof {
            assert(d.related@.subrange(0, k + 1).drop_last() =~= d.related@.subrange(0, k as int));
            assert(out@ =~= o + (placed + notes_text(d.related@.subrange(0, k + 1), *s)));
        }
        k = k + 1;
    }
    proof {
        assert(d.related@.subrange(0, k as int) =~= d.related@);
    }
}

/// The closing line of a capped rendering: how many diagnostics were not shown.
pub open spec fn more_text(remaining: nat, s: Styles) -> Seq<char> {
    s.red@ + "... and "@ + decimal(remaining) + " more"@ + (if remaining == 1 {
        Seq::empty()
    } else {
        seq!['s']
    }) + s.reset@ + seq![' '] + s.dim@ + "(Hint: run with --max-diagnostics=0 to show all)"@ + seq![
        '\n',
        '\n',
    ]
}

/// The renderings of the diagnostics, one after the other.
pub open spec fn concat_diagnostics(ds: Seq<Diagnostic>, s: Styles) -> Seq<char>
    decreases ds.len(),
{
    if ds.len() == 0 {
        Seq::empty()
    } else {
        concat_diagnostics(ds.drop_last(), s) + diagnostic_text(ds.last(), s)
    }
}

/// The rendering of a bag capped at `max` diagnostics (0 = unlimited).
pub open spec fn diagnostics_text(ds: Seq<Diagnostic>, s: Styles, max: nat) -> Seq<char> {
    if max > 0 && ds.len() > max {
        concat_diagnostics(ds.subrange(0, max as int), s) + more_text((ds.len() - max) as nat, s)
    } else {
        concat_diagnostics(ds, s)
    }
}

/// Whether the diagnostics that a rendering capped at `max` shows can be rendered.
pub open spec fn shown_renderable(ds: Seq<Diagnostic>, max: nat) -> bool {
    forall|i: int| 0 <= i < ds.len() && (max == 0 || i < max) ==> renderable(#[trigger] ds[i])
}

fn push_more(out: &mut String, remaining: usize, s: &Styles)
    ensures
        final(out)@ == old(out)@ + more_text(remaining as nat, *s),
{
    proof {
        reveal_strlit("s");
    }
    push_str(out, s.red);
    push_str(out, "... and ");
    push_decimal(out, remaining);
    push_str(out, " more");
    if remaining != 1 {
        push_str(out, "s");
    }
    push_str(out, s.reset);
    push_char(out, ' ');
    push_str(out, s.dim);
    push_str(out, "(Hint: run with --max-diagnostics=0 to show all)");
    push_char(out, '\n');
    push_char(out, '\n');
    proof {
        assert(final(out)@ =~= old(out)@ + more_text(remaining as nat, *s));
    }
}

/// Renders a single diagnostic.
pub fn render_diagnostic(d: &Diagnostic, color: Color, stderr_is_terminal: bool) -> (r: String)
    requires
        renderable(*d),
    ensures
        r@ == diagnostic_text(*d, styles_spec(color, stderr_is_terminal)),
{
    let s = styles_for(color, stderr_is_terminal);
    let mut out = String::new();
    push_diagnostic(&mut out, d, &s);
    proof {
        assert(out@ =~= diagnostic_text(*d, s));
    }
    out
}

/// Renders a single diagnostic with no color.
pub fn render_diagnostic_string(d: &Diagnostic) -> (r: String)
    requires
        renderable(*d),
    ensures
        r@ == diagnostic_text(*d, plain()),
{
    render_diagnostic(d, Color::Never, false)
}

/// Renders all diagnostics, capped at `max` (0 = unlimited).
pub fn render_diagnostics(ds: &Diagnostics, color: Color, stderr_is_terminal: bool, max: usize) -> (r: String)
    requires
        shown_renderable(ds.0@, max as nat),
    ensures
        r@ == diagnostics_text(ds.0@, styles_spec(color, stderr_is_terminal), max as nat),
{
    let s = styles_for(color, stderr_is_terminal);
    let total = ds.len();
    let shown = if max > 0 && total > max {
        max
    } else {
        total
    };
    let mut out = String::new();
    let mut i: usize = 0;
    while i < shown
        invariant
            total == ds.0@.len(),
            shown <= total,
            shown == total || (max > 0 && shown == max),
            max > 0 ==> shown <= max,
            i <= shown,
            shown_renderable(ds.0@, max as nat),
            out@ == concat_diagnostics(ds.0@.subrange(0, i as int), s),
        decreases shown - i,
    {
        assert(renderable(ds.0@[i as int]));
        push_diagnostic(&mut out, &ds.0[i], &s);
        proof {
            assert(ds.0@.subrange(0, i + 1).drop_last() =~= ds.0@.subrange(0, i as int));
        }
        i = i + 1;
    }
    if max > 0 && total > max {
        push_more(&mut out, total - max, &s);
    } else {
        assert(ds.0@.subrange(0, i as int) =~= ds.0@);
    }
    out
}

/// Renders all diagnostics with no color, capped at `max` (0 = unlimited).
pub fn render_diagnostics_string(ds: &Diagnostics, max: usize) -> (r: String)
    requires
        shown_renderable(ds.0@, max as nat),
    ensures
        r@ == diagnostics_text(ds.0@, plain(), max as nat),
{
    render_diagnostics(ds, Color::Never, false, max)
}

/// Whether a diagnostic can be rendered.
pub fn is_renderable(d: &Diagnostic) -> (r: bool)
    ensures
        r == renderable(*d),
{
    let located_ok = match (&d.location, &d.inline_source) {
        (Some(loc), Some(_)) => loc.line < usize::MAX,
        _ => true,
    };
    if !located_ok {
        return false;
    }
    let mut i: usize = 0;
    while i < d.related.len()
        invariant
            i <= d.related@.len(),
            forall|k: int|
                0 <= k < i && (#[trigger] d.related@[k]).inline_source is Some ==> d.related@[k].location.line
                    < usize::MAX,
        decreases d.related@.len() - i,
    {
        let r = &d.related[i];
        if r.inline_source.is_some() && r.location.line == usize::MAX {
            return false;
        }
        i = i + 1;
    }
    true
}

/// Whether every diagnostic of a bag can be rendered.
pub fn all_renderable(ds: &Diagnostics) -> (r: bool)
    ensures
        r == forall|i: int| 0 <= i < ds.0@.len() ==> renderable(#[trigger] ds.0@[i]),
{
    let mut i: usize = 0;
    while i < ds.0.len()
        invariant
            i <= ds.0@.len(),
            forall|k: int| 0 <= k < i ==> renderable(#[trigger] ds.0@[k]),
        decreases ds.0@.len() - i,
    {
        if !is_renderable(&ds.0[i]) {
            return false;
        }
        i = i + 1;
    }
    true
}

} // verus!
