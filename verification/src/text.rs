//! Character and string primitives shared by the casing, extraction and
//! rendering modules.
//!
//! ASCII classification is written here and proved; Unicode case mapping is
//! delegated to the standard library, whose tables are named rather than
//! restated; trimming is stated from the Unicode `White_Space` list.
use vstd::prelude::*;

use vstd::string::StringExecFns;

verus! {

// ── ASCII classification (bytes) ────────────────────────────────────────────

/// `u8::is_ascii_alphabetic`
pub open spec fn is_alpha_byte(b: u8) -> bool {
    (0x41 <= b && b <= 0x5a) || (0x61 <= b && b <= 0x7a)
}

/// `u8::is_ascii_digit`
pub open spec fn is_digit_byte(b: u8) -> bool {
    0x30 <= b && b <= 0x39
}

/// `u8::is_ascii_whitespace`: space, tab, line feed, form feed, carriage return.
pub open spec fn is_ws_byte(b: u8) -> bool {
    b == 0x20 || b == 0x09 || b == 0x0a || b == 0x0c || b == 0x0d
}

/// `u8::to_ascii_lowercase`
pub open spec fn lower_byte(b: u8) -> u8 {
    if 0x41 <= b && b <= 0x5a {
        (b + 32) as u8
    } else {
        b
    }
}

pub fn is_alpha_byte_exec(b: u8) -> (r: bool)
    ensures
        r == is_alpha_byte(b),
{
    (0x41 <= b && b <= 0x5a) || (0x61 <= b && b <= 0x7a)
}

pub fn is_digit_byte_exec(b: u8) -> (r: bool)
    ensures
        r == is_digit_byte(b),
{
    0x30 <= b && b <= 0x39
}

pub fn is_ws_byte_exec(b: u8) -> (r: bool)
    ensures
        r == is_ws_byte(b),
{
    b == 0x20 || b == 0x09 || b == 0x0a || b == 0x0c || b == 0x0d
}

pub fn lower_byte_exec(b: u8) -> (r: u8)
    ensures
        r == lower_byte(b),
{
    if 0x41 <= b && b <= 0x5a {
        b + 32
    } else {
        b
    }
}

// ── ASCII case mapping (chars) ──────────────────────────────────────────────

/// `char::to_ascii_lowercase`
pub open spec fn ascii_lower(c: char) -> char {
    if 'A' <= c && c <= 'Z' {
        ((c as u32) + 32) as char
    } else {
        c
    }
}

/// `char::to_ascii_uppercase`
pub open spec fn ascii_upper(c: char) -> char {
    if 'a' <= c && c <= 'z' {
        ((c as u32) - 32) as char
    } else {
        c
    }
}

pub open spec fn ascii_lower_seq(s: Seq<char>) -> Seq<char> {
    s.map_values(|c: char| ascii_lower(c))
}

pub open spec fn ascii_upper_seq(s: Seq<char>) -> Seq<char> {
    s.map_values(|c: char| ascii_upper(c))
}

pub open spec fn is_ascii_char(c: char) -> bool {
    (c as u32) < 128
}

pub fn ascii_lower_exec(c: char) -> (r: char)
    ensures
        r == ascii_lower(c),
{
    if 'A' <= c && c <= 'Z' {
        let v: u32 = (c as u32) + 32;
        // the result stays inside the ASCII range
        char_from_ascii(v)
    } else {
        c
    }
}

/// `char::from_u32` on a value known to be ASCII.
fn char_from_ascii(v: u32) -> (r: char)
    requires
        v < 128,
    ensures
        r == v as char,
{
    let b: u8 = v as u8;
    b as char
}

// ── Unicode case mapping and trimming (named results of std) ───────────────

/// Whether `c` has the Unicode `Uppercase` property.
pub uninterp spec fn unicode_is_uppercase(c: char) -> bool;

/// Whether `c` has the Unicode `Lowercase` property.
pub uninterp spec fn unicode_is_lowercase(c: char) -> bool;

/// The characters that `char::to_uppercase` yields for `c`.
pub uninterp spec fn unicode_char_upper(c: char) -> Seq<char>;

/// The result of `str::to_lowercase` on a string with the given characters.
pub uninterp spec fn unicode_lower(s: Seq<char>) -> Seq<char>;

/// The result of `str::to_uppercase` on a string with the given characters.
pub uninterp spec fn unicode_upper(s: Seq<char>) -> Seq<char>;

/// Whether `c` has the Unicode `White_Space` property.
pub open spec fn is_white_space(c: char) -> bool {
    let v = c as u32;
    (0x09 <= v && v <= 0x0D) || v == 0x20 || v == 0x85 || v == 0xA0 || v == 0x1680 || (0x2000 <= v
        && v <= 0x200A) || v == 0x2028 || v == 0x2029 || v == 0x202F || v == 0x205F || v == 0x3000
}

/// The number of white-space characters at the start of `s`.
pub open spec fn leading_white_space(s: Seq<char>) -> nat
    decreases s.len(),
{
    if s.len() > 0 && is_white_space(s[0]) {
        1 + leading_white_space(s.drop_first())
    } else {
        0
    }
}

/// The number of white-space characters at the end of `s`.
pub open spec fn trailing_white_space(s: Seq<char>) -> nat
    decreases s.len(),
{
    if s.len() > 0 && is_white_space(s.last()) {
        1 + trailing_white_space(s.drop_last())
    } else {
        0
    }
}

/// `s` without its leading and trailing white space: empty when it is all
/// white space, else the part between the first and the last character
/// that is not.
pub open spec fn unicode_trim(s: Seq<char>) -> Seq<char> {
    if leading_white_space(s) >= s.len() {
        Seq::empty()
    } else {
        s.subrange(leading_white_space(s) as int, s.len() - trailing_white_space(s))
    }
}

/// Calls `char::is_uppercase`. Claimed: the result is the named Unicode
/// property of `c`, and on ASCII it holds exactly for `A`..=`Z`.
#[verifier::external_body]
pub(crate) fn char_is_uppercase(c: char) -> (r: bool)
    ensures
        r == unicode_is_uppercase(c),
        is_ascii_char(c) ==> (r <==> ('A' <= c && c <= 'Z')),
{
    c.is_uppercase()
}

/// Calls `char::is_lowercase`. Claimed: the result is the named Unicode
/// property of `c`, and on ASCII it holds exactly for `a`..=`z`.
#[verifier::external_body]
pub(crate) fn char_is_lowercase(c: char) -> (r: bool)
    ensures
        r == unicode_is_lowercase(c),
        is_ascii_char(c) ==> (r <==> ('a' <= c && c <= 'z')),
{
    c.is_lowercase()
}

/// Calls `char::to_uppercase` and collects what it yields. Claimed: the
/// characters are the named mapping of `c`; on ASCII the mapping is
/// `char::to_ascii_uppercase`.
#[verifier::external_body]
pub(crate) fn char_to_uppercase(c: char) -> (r: String)
    ensures
        r@ == unicode_char_upper(c),
        is_ascii_char(c) ==> r@ == seq![ascii_upper(c)],
{
    c.to_uppercase().collect()
}

/// Calls `str::to_lowercase`. Claimed: the result is the named mapping of the
/// input's characters; on an ASCII string it is `to_ascii_lowercase`.
#[verifier::external_body]
pub(crate) fn str_to_lowercase(s: &str) -> (r: String)
    ensures
        r@ == unicode_lower(s@),
        vstd::string::is_ascii(s) ==> r@ == ascii_lower_seq(s@),
{
    s.to_lowercase()
}

/// Calls `str::to_uppercase`. Claimed: the result is the named mapping of the
/// input's characters; on an ASCII string it is `to_ascii_uppercase`.
#[verifier::external_body]
pub(crate) fn str_to_uppercase(s: &str) -> (r: String)
    ensures
        r@ == unicode_upper(s@),
        vstd::string::is_ascii(s) ==> r@ == ascii_upper_seq(s@),
{
    s.to_uppercase()
}

/// Calls `str::trim`. Claimed, as its documentation says: the input without
/// its leading and trailing white space (the Unicode `White_Space`
/// property).
#[verifier::external_body]
pub(crate) fn str_trim(s: &str) -> (r: &str)
    ensures
        r@ == unicode_trim(s@),
{
    s.trim()
}

// ── Building strings ────────────────────────────────────────────────────────

/// Calls `String::push`.
#[verifier::external_body]
pub(crate) fn push_char(s: &mut String, c: char)
    ensures
        final(s)@ == old(s)@.push(c),
{
    s.push(c)
}

/// Appends `t` (vstd's `append`).
pub(crate) fn push_str(s: &mut String, t: &str)
    ensures
        final(s)@ == old(s)@ + t@,
{
    s.append(t)
}

/// Calls `str::chars` and collects the characters.
#[verifier::external_body]
pub(crate) fn chars_of(s: &str) -> (r: Vec<char>)
    ensures
        r@ == s@,
{
    s.chars().collect()
}

/// Calls `<str as PartialEq>::eq`.
#[verifier::external_body]
pub(crate) fn str_eq(a: &str, b: &str) -> (r: bool)
    ensures
        r == (a@ == b@),
{
    a == b
}

/// An owned copy of `s` (`str::to_owned`, specified by vstd).
pub(crate) fn to_owned_string(s: &str) -> (r: String)
    ensures
        r@ == s@,
{
    s.to_owned()
}

/// A string made of the given characters, in order.
pub fn string_from_chars(cs: &Vec<char>, from: usize, to: usize) -> (r: String)
    requires
        from <= to <= cs@.len(),
    ensures
        r@ == cs@.subrange(from as int, to as int),
{
    let mut r = String::new();
    let mut i = from;
    while i < to
        invariant
            from <= i <= to <= cs@.len(),
            r@ == cs@.subrange(from as int, i as int),
        decreases to - i,
    {
        push_char(&mut r, cs[i]);
        assert(cs@.subrange(from as int, i + 1) == cs@.subrange(from as int, i as int).push(cs@[i as int]));
        i = i + 1;
    }
    r
}

} // verus!
