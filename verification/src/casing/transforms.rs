//! Case transformations: split into words, transform each, join.
use vstd::prelude::*;

use super::words::{
    split_into_words, split_words_counted, split_words_spec, trailing_underscores, without_underscores, Word,
};
use crate::diagnostic::render::{push_repeat, repeat};
use crate::text::{
    ascii_lower, ascii_lower_exec, ascii_lower_seq, char_to_uppercase, chars_of, push_char,
    push_str, str_to_lowercase, str_to_uppercase, unicode_char_upper, unicode_lower, unicode_upper,
};

verus! {

// ── Specifications ─────────────────────────────────────────────────────────

/// First character through `char::to_uppercase`, the rest ASCII-lowercased.
pub open spec fn capitalized(t: Seq<char>) -> Seq<char> {
    if t.len() == 0 {
        Seq::empty()
    } else {
        unicode_char_upper(t[0]) + ascii_lower_seq(t.skip(1))
    }
}

/// `n` underscores when underscores are kept, none when they are transformed.
pub open spec fn kept_underscores(n: nat, transform_underscore: bool) -> Seq<char> {
    if transform_underscore {
        Seq::empty()
    } else {
        repeat('_', n)
    }
}

/// The underscores before a word, when underscores are kept.
pub open spec fn underscore_mark(w: (Seq<char>, nat), transform_underscore: bool) -> Seq<char> {
    kept_underscores(w.1, transform_underscore)
}

pub open spec fn pascal_spec(ws: Seq<(Seq<char>, nat)>, tu: bool) -> Seq<char>
    decreases ws.len(),
{
    if ws.len() == 0 {
        Seq::empty()
    } else {
        pascal_spec(ws.drop_last(), tu) + underscore_mark(ws.last(), tu) + capitalized(
            ws.last().0,
        )
    }
}

/// The `i`-th word in camelCase: the first lowercased, the others capitalized.
pub open spec fn camel_word(w: (Seq<char>, nat), i: int) -> Seq<char> {
    if i == 0 {
        ascii_lower_seq(w.0)
    } else {
        capitalized(w.0)
    }
}

pub open spec fn camel_spec(ws: Seq<(Seq<char>, nat)>, tu: bool) -> Seq<char>
    decreases ws.len(),
{
    if ws.len() == 0 {
        Seq::empty()
    } else {
        camel_spec(ws.drop_last(), tu) + underscore_mark(ws.last(), tu) + camel_word(
            ws.last(),
            ws.len() - 1,
        )
    }
}

/// The parts joined with `sep` between consecutive parts.
pub open spec fn join_spec(parts: Seq<Seq<char>>, sep: Seq<char>) -> Seq<char>
    decreases parts.len(),
{
    if parts.len() == 0 {
        Seq::empty()
    } else if parts.len() == 1 {
        parts[0]
    } else {
        join_spec(parts.drop_last(), sep) + sep + parts.last()
    }
}

/// How each word is rewritten before joining.
pub enum WordStyle {
    Upper,
    Lower,
    Capital,
}

pub open spec fn styled(style: WordStyle, t: Seq<char>) -> Seq<char> {
    match style {
        WordStyle::Upper => unicode_upper(t),
        WordStyle::Lower => unicode_lower(t),
        WordStyle::Capital => capitalized(t),
    }
}

pub open spec fn styled_words(ws: Seq<(Seq<char>, nat)>, style: WordStyle) -> Seq<Seq<char>> {
    ws.map_values(|w: (Seq<char>, nat)| styled(style, w.0))
}

/// The words of `s`, restyled and joined with `sep`.
pub open spec fn joined_words(s: Seq<char>, sep: Seq<char>, style: WordStyle) -> Seq<char> {
    join_spec(styled_words(split_words_spec(s), style), sep)
}

/// PascalCase of `s`: each word capitalized; when underscores are kept,
/// every underscore of `s` stays where it was, trailing ones included.
pub open spec fn pascal_case(s: Seq<char>, tu: bool) -> Seq<char> {
    pascal_spec(split_words_spec(s), tu) + kept_underscores(trailing_underscores(s), tu)
}

/// camelCase of `s`: the first word lowercased, the others capitalized;
/// underscores kept as in [`pascal_case`].
pub open spec fn camel_case(s: Seq<char>, tu: bool) -> Seq<char> {
    camel_spec(split_words_spec(s), tu) + kept_underscores(trailing_underscores(s), tu)
}

// ── First-class transforms ─────────────────────────────────────────────────

/// PascalCase: `UserProfile`, `HttpStatus`.
pub fn to_pascal_case(s: &str, transform_underscore: bool) -> (r: String)
    ensures
        r@ == pascal_case(s@, transform_underscore),
{
    let (words, trailing) = split_words_counted(s);
    let ghost ws = words@.map_values(|w: Word| w@);
    let mut result = String::new();
    let mut i: usize = 0;
    while i < words.len()
        invariant
            i <= words@.len(),
            ws == words@.map_values(|w: Word| w@),
            ws == split_words_spec(s@),
            result@ == pascal_spec(ws.take(i as int), transform_underscore),
        decreases words@.len() - i,
    {
        let word = &words[i];
        proof {
            assert(ws.take(i + 1).drop_last() == ws.take(i as int));
            assert(ws.take(i + 1).last() == word@);
        }
        if !transform_underscore {
            push_repeat(&mut result, '_', word.underscores);
        }
        capitalize_word(word.text.as_str(), &mut result);
        i = i + 1;
    }
    proof {
        assert(ws.take(words@.len() as int) == ws);
    }
    if !transform_underscore {
        push_repeat(&mut result, '_', trailing);
    }
    result
}

/// camelCase: `userProfile`, `httpStatus`.
pub fn to_camel_case(s: &str, transform_underscore: bool) -> (r: String)
    ensures
        r@ == camel_case(s@, transform_underscore),
{
    let (words, trailing) = split_words_counted(s);
    let ghost ws = words@.map_values(|w: Word| w@);
    let mut result = String::new();
    let mut i: usize = 0;
    while i < words.len()
        invariant
            i <= words@.len(),
            ws == words@.map_values(|w: Word| w@),
            ws == split_words_spec(s@),
            result@ == camel_spec(ws.take(i as int), transform_underscore),
        decreases words@.len() - i,
    {
        let word = &words[i];
        proof {
            assert(ws.take(i + 1).drop_last() == ws.take(i as int));
            assert(ws.take(i + 1).last() == word@);
        }
        if !transform_underscore {
            push_repeat(&mut result, '_', word.underscores);
        }
        if i == 0 {
            lowercase_word(word.text.as_str(), &mut result);
        } else {
            capitalize_word(word.text.as_str(), &mut result);
        }
        i = i + 1;
    }
    proof {
        assert(ws.take(words@.len() as int) == ws);
    }
    if !transform_underscore {
        push_repeat(&mut result, '_', trailing);
    }
    result
}

/// CONSTANT_CASE: `USER_PROFILE`, `HTTP_STATUS`.
pub fn to_constant_case(s: &str) -> (r: String)
    ensures
        r@ == joined_words(s@, seq!['_'], WordStyle::Upper),
{
    proof {
        reveal_strlit("_");
        assert("_"@ =~= seq!['_']);
    }
    join_words(s, "_", WordStyle::Upper)
}

/// snake_case: `user_profile`, `http_status`.
pub fn to_snake_case(s: &str) -> (r: String)
    ensures
        r@ == joined_words(s@, seq!['_'], WordStyle::Lower),
{
    proof {
        reveal_strlit("_");
        assert("_"@ =~= seq!['_']);
    }
    join_words(s, "_", WordStyle::Lower)
}

// ── Compatibility transforms ───────────────────────────────────────────────

/// Capital Case: `User Profile`, `Http Status`.
pub fn to_capital_case(s: &str) -> (r: String)
    ensures
        r@ == joined_words(s@, seq![' '], WordStyle::Capital),
{
    proof {
        reveal_strlit(" ");
        assert(" "@ =~= seq![' ']);
    }
    join_words(s, " ", WordStyle::Capital)
}

/// dot.case: `user.profile`, `http.status`.
pub fn to_dot_case(s: &str) -> (r: String)
    ensures
        r@ == joined_words(s@, seq!['.'], WordStyle::Lower),
{
    proof {
        reveal_strlit(".");
        assert("."@ =~= seq!['.']);
    }
    join_words(s, ".", WordStyle::Lower)
}

/// Header-Case: `User-Profile`, `Http-Status`.
pub fn to_header_case(s: &str) -> (r: String)
    ensures
        r@ == joined_words(s@, seq!['-'], WordStyle::Capital),
{
    proof {
        reveal_strlit("-");
        assert("-"@ =~= seq!['-']);
    }
    join_words(s, "-", WordStyle::Capital)
}

/// no case: `user profile`, `http status`.
pub fn to_no_case(s: &str) -> (r: String)
    ensures
        r@ == joined_words(s@, seq![' '], WordStyle::Lower),
{
    proof {
        reveal_strlit(" ");
        assert(" "@ =~= seq![' ']);
    }
    join_words(s, " ", WordStyle::Lower)
}

/// param-case (kebab-case): `user-profile`, `http-status`.
pub fn to_param_case(s: &str) -> (r: String)
    ensures
        r@ == joined_words(s@, seq!['-'], WordStyle::Lower),
{
    proof {
        reveal_strlit("-");
        assert("-"@ =~= seq!['-']);
    }
    join_words(s, "-", WordStyle::Lower)
}

/// path/case: `user/profile`, `http/status`.
pub fn to_path_case(s: &str) -> (r: String)
    ensures
        r@ == joined_words(s@, seq!['/'], WordStyle::Lower),
{
    proof {
        reveal_strlit("/");
        assert("/"@ =~= seq!['/']);
    }
    join_words(s, "/", WordStyle::Lower)
}

// ── Helpers ────────────────────────────────────────────────────────────────

/// Split into words, restyle each, join with `separator`.
fn join_words(s: &str, separator: &str, style: WordStyle) -> (r: String)
    ensures
        r@ == joined_words(s@, separator@, style),
{
    let words = split_into_words(s);
    let ghost ws = words@.map_values(|w: Word| w@);
    let ghost parts = styled_words(ws, style);
    let mut result = String::new();
    let mut i: usize = 0;
    while i < words.len()
        invariant
            i <= words@.len(),
            ws == words@.map_values(|w: Word| w@),
            ws == split_words_spec(s@),
            parts == styled_words(ws, style),
            parts.len() == ws.len(),
            result@ == join_spec(parts.take(i as int), separator@),
        decreases words@.len() - i,
    {
        let word = &words[i];
        proof {
            assert(parts.take(i + 1).drop_last() == parts.take(i as int));
            assert(parts.take(i + 1).last() == styled(style, word.text@));
            assert(parts.take(i + 1).len() == i + 1);
            if i == 0 {
                assert(parts.take(1)[0] == parts.take(i + 1).last());
            }
        }
        if i > 0 {
            push_str(&mut result, separator);
        }
        match style {
            WordStyle::Upper => {
                let t = str_to_uppercase(word.text.as_str());
                push_str(&mut result, t.as_str());
            },
            WordStyle::Lower => {
                let t = str_to_lowercase(word.text.as_str());
                push_str(&mut result, t.as_str());
            },
            WordStyle::Capital => {
                capitalize_word(word.text.as_str(), &mut result);
            },
        }
        i = i + 1;
    }
    proof {
        assert(parts.take(words@.len() as int) == parts);
    }
    result
}

/// Append `text` with its first character uppercased and the rest
/// ASCII-lowercased.
fn capitalize_word(text: &str, result: &mut String)
    ensures
        final(result)@ == old(result)@ + capitalized(text@),
{
    let ghost orig = result@;
    let cs = chars_of(text);
    if cs.len() > 0 {
        let first = char_to_uppercase(cs[0]);
        push_str(result, first.as_str());
        let ghost base = result@;
        let mut i: usize = 1;
        while i < cs.len()
            invariant
                1 <= i <= cs@.len(),
                cs@ == text@,
                base == orig + unicode_char_upper(cs@[0]),
                result@ == base + ascii_lower_seq(cs@.subrange(1, i as int)),
            decreases cs@.len() - i,
        {
            let c = ascii_lower_exec(cs[i]);
            push_char(result, c);
            proof {
                assert(ascii_lower_seq(cs@.subrange(1, i + 1)) == ascii_lower_seq(
                    cs@.subrange(1, i as int),
                ).push(ascii_lower(cs@[i as int])));
            }
            i = i + 1;
        }
        proof {
            assert(cs@.subrange(1, cs@.len() as int) == text@.skip(1));
        }
    } else {
        proof {
            assert(orig + capitalized(text@) == orig);
        }
    }
}

/// Append `text` ASCII-lowercased.
fn lowercase_word(text: &str, result: &mut String)
    ensures
        final(result)@ == old(result)@ + ascii_lower_seq(text@),
{
    let cs = chars_of(text);
    let ghost base = result@;
    let mut i: usize = 0;
    while i < cs.len()
        invariant
            i <= cs@.len(),
            cs@ == text@,
            result@ == base + ascii_lower_seq(cs@.take(i as int)),
        decreases cs@.len() - i,
    {
        let c = ascii_lower_exec(cs[i]);
        push_char(result, c);
        proof {
            assert(ascii_lower_seq(cs@.take(i + 1)) == ascii_lower_seq(cs@.take(i as int)).push(
                ascii_lower(cs@[i as int]),
            ));
        }
        i = i + 1;
    }
    proof {
        assert(cs@.take(cs@.len() as int) == cs@);
    }
}

/// The text of the first word in PascalCase: its underscores (when kept),
/// then the word capitalized.
pub open spec fn pascal_head(ws: Seq<(Seq<char>, nat)>, tu: bool) -> Seq<char> {
    underscore_mark(ws[0], tu) + capitalized(ws[0].0)
}

proof fn lemma_pascal_starts_with_head(ws: Seq<(Seq<char>, nat)>, tu: bool)
    requires
        ws.len() > 0,
    ensures
        pascal_head(ws, tu).len() <= pascal_spec(ws, tu).len(),
        pascal_spec(ws, tu).subrange(0, pascal_head(ws, tu).len() as int) == pascal_head(ws, tu),
    decreases ws.len(),
{
    let h = pascal_head(ws, tu);
    if ws.len() == 1 {
        assert(ws.drop_last().len() == 0);
        assert(pascal_spec(ws.drop_last(), tu) == Seq::<char>::empty());
        assert(ws.last() == ws[0]);
        assert(pascal_spec(ws, tu) =~= h);
        assert(pascal_spec(ws, tu).subrange(0, h.len() as int) =~= h);
    } else {
        let p = ws.drop_last();
        lemma_pascal_starts_with_head(p, tu);
        assert(p[0] == ws[0]);
        assert(pascal_head(p, tu) == h);
        let full = pascal_spec(ws, tu);
        assert(full == pascal_spec(p, tu) + underscore_mark(ws.last(), tu) + capitalized(ws.last().0));
        assert(full.subrange(0, h.len() as int) =~= pascal_spec(p, tu).subrange(0, h.len() as int));
    }
}

/// PascalCase begins with its first word's leading underscores (when they
/// are kept) and then that word's first character upper-cased by
/// `char::to_uppercase`.
pub proof fn law_pascal_first_letter_upper(s: Seq<char>, tu: bool)
    requires
        split_words_spec(s).len() > 0,
    ensures
        ({
            let w = split_words_spec(s)[0];
            let head = kept_underscores(w.1, tu) + unicode_char_upper(w.0[0]);
            &&& head.len() <= pascal_case(s, tu).len()
            &&& pascal_case(s, tu).subrange(0, head.len() as int) == head
        }),
{
    let ws = split_words_spec(s);
    crate::casing::words::law_split_keeps_all_but_underscores(s);
    assert(ws[0].0.len() > 0);
    lemma_pascal_starts_with_head(ws, tu);
    let w = ws[0];
    let head = kept_underscores(w.1, tu) + unicode_char_upper(w.0[0]);
    let h = pascal_head(ws, tu);
    assert(h == head + ascii_lower_seq(w.0.skip(1)));
    let full = pascal_case(s, tu);
    assert(full == pascal_spec(ws, tu) + kept_underscores(trailing_underscores(s), tu));
    assert(full.subrange(0, h.len() as int) =~= pascal_spec(ws, tu).subrange(0, h.len() as int));
    assert(full.subrange(0, head.len() as int) =~= h.subrange(0, head.len() as int));
    assert(h.subrange(0, head.len() as int) =~= head);
}

/// `s` with every `a` replaced by `b`.
pub open spec fn replace_char(s: Seq<char>, a: char, b: char) -> Seq<char> {
    s.map_values(|c: char| if c == a {
        b
    } else {
        c
    })
}

proof fn lemma_join_replace(parts: Seq<Seq<char>>)
    requires
        forall|i: int| 0 <= i < parts.len() ==> !(#[trigger] parts[i]).contains('_'),
    ensures
        replace_char(join_spec(parts, seq!['_']), '_', '-') == join_spec(parts, seq!['-']),
    decreases parts.len(),
{
    if parts.len() == 1 {
        assert(replace_char(parts[0], '_', '-') =~= parts[0]) by {
            assert forall|k: int| 0 <= k < parts[0].len() implies parts[0][k] != '_' by {
                if parts[0][k] == '_' {
                    assert(parts[0].contains('_'));
                }
            }
        }
    } else if parts.len() > 1 {
        let q = parts.drop_last();
        assert forall|i: int| 0 <= i < q.len() implies !(#[trigger] q[i]).contains('_') by {
            assert(q[i] == parts[i]);
        }
        lemma_join_replace(q);
        let last = parts.last();
        assert(!parts[parts.len() - 1].contains('_'));
        assert(replace_char(last, '_', '-') =~= last) by {
            assert forall|k: int| 0 <= k < last.len() implies last[k] != '_' by {
                if last[k] == '_' {
                    assert(last.contains('_'));
                }
            }
        }
        let j = join_spec(q, seq!['_']);
        assert(replace_char(j + seq!['_'] + last, '_', '-') =~= replace_char(j, '_', '-') + seq!['-']
            + replace_char(last, '_', '-'));
    }
}

/// param-case is snake_case with `-` for `_`: both join the same lowercased
/// words, so when no lowercased word holds `_`, replacing the separators of
/// the one gives the other.
pub proof fn law_param_is_snake_with_dashes(s: Seq<char>)
    requires
        forall|i: int|
            0 <= i < styled_words(split_words_spec(s), WordStyle::Lower).len() ==> !(#[trigger] styled_words(
                split_words_spec(s),
                WordStyle::Lower,
            )[i]).contains('_'),
    ensures
        replace_char(joined_words(s, seq!['_'], WordStyle::Lower), '_', '-') == joined_words(
            s,
            seq!['-'],
            WordStyle::Lower,
        ),
{
    lemma_join_replace(styled_words(split_words_spec(s), WordStyle::Lower));
}

proof fn lemma_filter_no_underscore(t: Seq<char>)
    requires
        !t.contains('_'),
    ensures
        without_underscores(t) == t,
    decreases t.len(),
{
    reveal_with_fuel(Seq::filter, 1);
    if t.len() > 0 {
        let u = t.drop_last();
        assert(!u.contains('_')) by {
            if u.contains('_') {
                let k = choose|k: int| 0 <= k < u.len() && u[k] == '_';
                assert(t[k] == '_');
            }
        }
        lemma_filter_no_underscore(u);
        assert(t.last() != '_') by {
            if t.last() == '_' {
                assert(t[t.len() - 1] == '_');
            }
        }
        assert(t.drop_last() == u);
    } else {
        assert(t.filter(|c: char| c != '_') =~= t);
    }
}

proof fn lemma_filter_underscores(n: nat)
    ensures
        without_underscores(repeat('_', n)) == Seq::<char>::empty(),
    decreases n,
{
    reveal_with_fuel(Seq::filter, 1);
    if n > 0 {
        lemma_filter_underscores((n - 1) as nat);
        assert(repeat('_', n).drop_last() =~= repeat('_', (n - 1) as nat));
    } else {
        assert(repeat('_', n) =~= Seq::<char>::empty());
        assert(repeat('_', n).filter(|c: char| c != '_') =~= Seq::<char>::empty());
    }
}

proof fn lemma_kept_filter(n: nat, tu: bool)
    ensures
        without_underscores(kept_underscores(n, tu)) == Seq::<char>::empty(),
{
    if tu {
        assert(Seq::<char>::empty().filter(|c: char| c != '_') =~= Seq::<char>::empty());
    } else {
        lemma_filter_underscores(n);
    }
}

proof fn lemma_pascal_filter(ws: Seq<(Seq<char>, nat)>)
    requires
        forall|i: int| 0 <= i < ws.len() ==> !capitalized((#[trigger] ws[i]).0).contains('_'),
    ensures
        without_underscores(pascal_spec(ws, false)) == pascal_spec(ws, true),
    decreases ws.len(),
{
    if ws.len() == 0 {
        assert(Seq::<char>::empty().filter(|c: char| c != '_') =~= Seq::<char>::empty());
    } else {
        let q = ws.drop_last();
        assert forall|i: int| 0 <= i < q.len() implies !capitalized((#[trigger] q[i]).0).contains('_') by {
            assert(q[i] == ws[i]);
        }
        lemma_pascal_filter(q);
        let w = ws.last();
        assert(!capitalized(ws[ws.len() - 1].0).contains('_'));
        let cap = capitalized(w.0);
        lemma_filter_no_underscore(cap);
        lemma_kept_filter(w.1, false);
        let f = |c: char| c != '_';
        let a = pascal_spec(q, false);
        let m = underscore_mark(w, false);
        Seq::filter_distributes_over_add(a + m, cap, f);
        Seq::filter_distributes_over_add(a, m, f);
        assert(underscore_mark(w, true) =~= Seq::<char>::empty());
        assert(pascal_spec(ws, true) =~= pascal_spec(q, true) + cap);
    }
}

/// The underscore flag of PascalCase only removes underscores: with
/// `transform_underscore` the result is the result without it, its
/// underscores taken out, and holds none, provided the capitalized words
/// hold none (the words themselves never do).
pub proof fn law_pascal_flag_only_removes_underscores(s: Seq<char>)
    requires
        forall|i: int|
            0 <= i < split_words_spec(s).len() ==> !capitalized((#[trigger] split_words_spec(s)[i]).0).contains(
                '_',
            ),
    ensures
        pascal_case(s, true) == without_underscores(pascal_case(s, false)),
        !pascal_case(s, true).contains('_'),
{
    let ws = split_words_spec(s);
    lemma_pascal_filter(ws);
    lemma_kept_filter(trailing_underscores(s), false);
    let f = |c: char| c != '_';
    Seq::filter_distributes_over_add(
        pascal_spec(ws, false),
        kept_underscores(trailing_underscores(s), false),
        f,
    );
    assert(pascal_case(s, true) =~= pascal_spec(ws, true));
    let r = pascal_case(s, true);
    assert(!r.contains('_')) by {
        if r.contains('_') {
            let k = choose|k: int| 0 <= k < r.len() && r[k] == '_';
            let t = pascal_case(s, false);
            assert(r == t.filter(f));
            Seq::filter_lemma(t, f);
        }
    }
}

/// Every word after the first, each with its kept underscores, capitalized.
pub open spec fn later_words(ws: Seq<(Seq<char>, nat)>, tu: bool) -> Seq<char>
    decreases ws.len(),
{
    if ws.len() <= 1 {
        Seq::empty()
    } else {
        later_words(ws.drop_last(), tu) + underscore_mark(ws.last(), tu) + capitalized(ws.last().0)
    }
}

proof fn lemma_first_word_split(ws: Seq<(Seq<char>, nat)>, tu: bool)
    requires
        ws.len() > 0,
    ensures
        pascal_spec(ws, tu) == underscore_mark(ws[0], tu) + capitalized(ws[0].0) + later_words(ws, tu),
        camel_spec(ws, tu) == underscore_mark(ws[0], tu) + ascii_lower_seq(ws[0].0) + later_words(ws, tu),
    decreases ws.len(),
{
    if ws.len() == 1 {
        assert(ws.drop_last().len() == 0);
        assert(ws.last() == ws[0]);
        assert(pascal_spec(ws.drop_last(), tu) == Seq::<char>::empty());
        assert(camel_spec(ws.drop_last(), tu) == Seq::<char>::empty());
        assert(later_words(ws, tu) == Seq::<char>::empty());
        assert(camel_word(ws.last(), 0) == ascii_lower_seq(ws[0].0));
        assert(pascal_spec(ws, tu) =~= underscore_mark(ws[0], tu) + capitalized(ws[0].0) + later_words(ws, tu));
        assert(camel_spec(ws, tu) =~= underscore_mark(ws[0], tu) + ascii_lower_seq(ws[0].0) + later_words(ws, tu));
    } else {
        let q = ws.drop_last();
        lemma_first_word_split(q, tu);
        assert(q[0] == ws[0]);
        let w = ws.last();
        assert(camel_word(w, ws.len() - 1) == capitalized(w.0));
        assert(pascal_spec(ws, tu) =~= underscore_mark(ws[0], tu) + capitalized(ws[0].0) + later_words(ws, tu));
        assert(camel_spec(ws, tu) =~= underscore_mark(ws[0], tu) + ascii_lower_seq(ws[0].0) + later_words(ws, tu));
    }
}

/// camelCase and PascalCase differ only in the first word: camelCase
/// lowercases it (ASCII), PascalCase capitalizes it; the underscores and
/// every later word are the same in both. With no words both are the kept
/// trailing underscores.
pub proof fn law_camel_lowers_first_word(s: Seq<char>, tu: bool)
    ensures
        split_words_spec(s).len() == 0 ==> camel_case(s, tu) == pascal_case(s, tu),
        split_words_spec(s).len() > 0 ==> ({
            let ws = split_words_spec(s);
            let rest = later_words(ws, tu) + kept_underscores(trailing_underscores(s), tu);
            &&& camel_case(s, tu) == kept_underscores(ws[0].1, tu) + ascii_lower_seq(ws[0].0) + rest
            &&& pascal_case(s, tu) == kept_underscores(ws[0].1, tu) + capitalized(ws[0].0) + rest
        }),
{
    let ws = split_words_spec(s);
    if ws.len() > 0 {
        lemma_first_word_split(ws, tu);
        let rest = later_words(ws, tu) + kept_underscores(trailing_underscores(s), tu);
        assert(camel_case(s, tu) =~= kept_underscores(ws[0].1, tu) + ascii_lower_seq(ws[0].0) + rest);
        assert(pascal_case(s, tu) =~= kept_underscores(ws[0].1, tu) + capitalized(ws[0].0) + rest);
    }
}

proof fn lemma_join_replace_sep(parts: Seq<Seq<char>>, a: char, b: char)
    requires
        forall|i: int| 0 <= i < parts.len() ==> !(#[trigger] parts[i]).contains(a),
    ensures
        replace_char(join_spec(parts, seq![a]), a, b) == join_spec(parts, seq![b]),
    decreases parts.len(),
{
    if parts.len() >= 1 {
        let last = parts.last();
        assert(!parts[parts.len() - 1].contains(a));
        assert(replace_char(last, a, b) =~= last) by {
            assert forall|k: int| 0 <= k < last.len() implies last[k] != a by {
                if last[k] == a {
                    assert(last.contains(a));
                }
            }
        }
        if parts.len() > 1 {
            let q = parts.drop_last();
            assert forall|i: int| 0 <= i < q.len() implies !(#[trigger] q[i]).contains(a) by {
                assert(q[i] == parts[i]);
            }
            lemma_join_replace_sep(q, a, b);
            let j = join_spec(q, seq![a]);
            assert(replace_char(j + seq![a] + last, a, b) =~= replace_char(j, a, b) + seq![b]
                + replace_char(last, a, b));
        } else {
            assert(parts[0] == last);
        }
    } else {
        assert(replace_char(Seq::<char>::empty(), a, b) =~= Seq::<char>::empty());
    }
}

/// Two styles that join the same restyled words with separators `a` and `b`
/// differ only in the separators, when no restyled word holds `a`.
pub proof fn law_styles_differ_in_separator(s: Seq<char>, style: WordStyle, a: char, b: char)
    requires
        forall|i: int|
            0 <= i < styled_words(split_words_spec(s), style).len() ==> !(#[trigger] styled_words(
                split_words_spec(s),
                style,
            )[i]).contains(a),
    ensures
        replace_char(joined_words(s, seq![a], style), a, b) == joined_words(s, seq![b], style),
{
    lemma_join_replace_sep(styled_words(split_words_spec(s), style), a, b);
}

} // verus!
