//! Naming conventions and case transformation.
//!
//! Type names and enum values can be rewritten in PascalCase, camelCase,
//! CONSTANT_CASE and the other styles below. Names of styles may be given in
//! the `change-case-all#functionName` form, for compatibility.
use vstd::prelude::*;

use std::borrow::Cow;

pub mod transforms;
pub mod words;

use crate::text::{push_str, str_eq, str_to_lowercase, str_to_uppercase, to_owned_string, unicode_lower, unicode_upper};
use crate::text::ascii_lower_seq;
use transforms::{
    camel_case, capitalized, joined_words, law_styles_differ_in_separator, replace_char, styled_words, kept_underscores, later_words, law_camel_lowers_first_word, pascal_case, to_camel_case, to_capital_case, to_constant_case,
    to_dot_case, to_header_case, to_no_case, to_param_case, to_pascal_case, to_path_case,
    to_snake_case, WordStyle,
};
use words::{split_words_spec, trailing_underscores};

verus! {

/// Naming convention configuration: one style for everything, or separate
/// styles for different outputs.
#[derive(Clone, Copy, Debug, PartialEq, Eq, Hash)]
pub enum NamingConvention {
    /// Single convention applied to all names (e.g., "keep", "pascalCase")
    Simple(NamingCase),
    /// Detailed configuration with separate conventions for different outputs
    Detailed(NamingConventionConfig),
}

impl Default for NamingConvention {
    fn default() -> (r: Self)
        ensures
            r == NamingConvention::Simple(NamingCase::PascalCase),
    {
        NamingConvention::Simple(NamingCase::PascalCase)
    }
}

/// Detailed naming convention configuration.
#[derive(Clone, Copy, Debug, PartialEq, Eq, Hash)]
pub struct NamingConventionConfig {
    /// Convention for type names (interfaces, types, enums)
    pub type_names: Option<NamingCase>,
    /// Convention for enum values
    pub enum_values: Option<NamingCase>,
    /// When true, underscores are removed and treated as word boundaries.
    /// When false (default), underscores are preserved in output.
    pub transform_underscore: bool,
}

impl Default for NamingConventionConfig {
    fn default() -> (r: Self)
        ensures
            r.type_names is None,
            r.enum_values is None,
            !r.transform_underscore,
    {
        NamingConventionConfig { type_names: None, enum_values: None, transform_underscore: false }
    }
}

/// Available naming case transformations.
#[derive(Clone, Copy, Debug, PartialEq, Eq, Structural, Hash)]
pub enum NamingCase {
    /// Keep the name unchanged
    Keep,
    /// PascalCase (e.g., MyTypeName)
    PascalCase,
    /// camelCase (e.g., myTypeName)
    CamelCase,
    /// CONSTANT_CASE (e.g., MY_TYPE_NAME)
    ConstantCase,
    /// snake_case (e.g., my_type_name)
    SnakeCase,
    /// lowercase (e.g., mytypename)
    Lowercase,
    /// UPPERCASE (e.g., MYTYPENAME)
    Uppercase,
    /// Capital Case (e.g., My Type Name)
    CapitalCase,
    /// dot.case (e.g., my.type.name)
    DotCase,
    /// Header-Case (e.g., My-Type-Name)
    HeaderCase,
    /// no case (e.g., my type name)
    NoCase,
    /// param-case / kebab-case (e.g., my-type-name)
    ParamCase,
    /// path/case (e.g., my/type/name)
    PathCase,
}

impl Default for NamingCase {
    fn default() -> (r: Self)
        ensures
            r == NamingCase::PascalCase,
    {
        NamingCase::PascalCase
    }
}

/// What `NamingCase::apply` produces for `s`.
pub open spec fn apply_spec(case: NamingCase, s: Seq<char>, tu: bool) -> Seq<char> {
    match case {
        NamingCase::Keep => s,
        NamingCase::PascalCase => pascal_case(s, tu),
        NamingCase::CamelCase => camel_case(s, tu),
        NamingCase::ConstantCase => joined_words(s, seq!['_'], WordStyle::Upper),
        NamingCase::SnakeCase => joined_words(s, seq!['_'], WordStyle::Lower),
        NamingCase::Lowercase => unicode_lower(s),
        NamingCase::Uppercase => unicode_upper(s),
        NamingCase::CapitalCase => joined_words(s, seq![' '], WordStyle::Capital),
        NamingCase::DotCase => joined_words(s, seq!['.'], WordStyle::Lower),
        NamingCase::HeaderCase => joined_words(s, seq!['-'], WordStyle::Capital),
        NamingCase::NoCase => joined_words(s, seq![' '], WordStyle::Lower),
        NamingCase::ParamCase => joined_words(s, seq!['-'], WordStyle::Lower),
        NamingCase::PathCase => joined_words(s, seq!['/'], WordStyle::Lower),
    }
}

impl NamingCase {
    /// Apply this naming case transformation to a string. `Keep` hands the
    /// input back without copying it.
    pub fn apply<'a>(&self, s: &'a str, transform_underscore: bool) -> (r: Cow<'a, str>)
        ensures
            r@ == apply_spec(*self, s@, transform_underscore),
            *self == NamingCase::Keep <==> r is Borrowed,
    {
        match self {
            NamingCase::Keep => Cow::Borrowed(s),
            NamingCase::PascalCase => Cow::Owned(to_pascal_case(s, transform_underscore)),
            NamingCase::CamelCase => Cow::Owned(to_camel_case(s, transform_underscore)),
            NamingCase::ConstantCase => Cow::Owned(to_constant_case(s)),
            NamingCase::SnakeCase => Cow::Owned(to_snake_case(s)),
            NamingCase::Lowercase => Cow::Owned(str_to_lowercase(s)),
            NamingCase::Uppercase => Cow::Owned(str_to_uppercase(s)),
            NamingCase::CapitalCase => Cow::Owned(to_capital_case(s)),
            NamingCase::DotCase => Cow::Owned(to_dot_case(s)),
            NamingCase::HeaderCase => Cow::Owned(to_header_case(s)),
            NamingCase::NoCase => Cow::Owned(to_no_case(s)),
            NamingCase::ParamCase => Cow::Owned(to_param_case(s)),
            NamingCase::PathCase => Cow::Owned(to_path_case(s)),
        }
    }
}

// ── Parsing style names ────────────────────────────────────────────────────

/// The part of `s` after its last `#` (all of `s` when it has none).
pub open spec fn after_last_hash(s: Seq<char>) -> Seq<char>
    decreases s.len(),
{
    if s.len() == 0 {
        Seq::empty()
    } else if s.last() == '#' {
        Seq::empty()
    } else {
        after_last_hash(s.drop_last()).push(s.last())
    }
}

/// The first-class and compatibility names of each case.
pub open spec fn direct_case(n: Seq<char>) -> Option<NamingCase> {
    if n == "keep"@ {
        Some(NamingCase::Keep)
    } else if n == "pascalCase"@ || n == "PascalCase"@ {
        Some(NamingCase::PascalCase)
    } else if n == "camelCase"@ {
        Some(NamingCase::CamelCase)
    } else if n == "constantCase"@ || n == "CONSTANT_CASE"@ {
        Some(NamingCase::ConstantCase)
    } else if n == "snakeCase"@ || n == "snake_case"@ {
        Some(NamingCase::SnakeCase)
    } else if n == "lowerCase"@ || n == "lowercase"@ {
        Some(NamingCase::Lowercase)
    } else if n == "upperCase"@ || n == "uppercase"@ || n == "UPPERCASE"@ {
        Some(NamingCase::Uppercase)
    } else if n == "capitalCase"@ {
        Some(NamingCase::CapitalCase)
    } else if n == "dotCase"@ {
        Some(NamingCase::DotCase)
    } else if n == "headerCase"@ || n == "Header-Case"@ {
        Some(NamingCase::HeaderCase)
    } else if n == "noCase"@ {
        Some(NamingCase::NoCase)
    } else if n == "paramCase"@ || n == "kebabCase"@ || n == "kebab-case"@ {
        Some(NamingCase::ParamCase)
    } else if n == "pathCase"@ {
        Some(NamingCase::PathCase)
    } else {
        None
    }
}

/// Deprecated `change-case-all` names: the case used in their place and the
/// name suggested instead.
pub open spec fn deprecated_case(n: Seq<char>) -> Option<(NamingCase, Seq<char>)> {
    if n == "sentenceCase"@ {
        Some((NamingCase::CapitalCase, "capitalCase"@))
    } else if n == "titleCase"@ {
        Some((NamingCase::CapitalCase, "capitalCase"@))
    } else if n == "spongeCase"@ {
        Some((NamingCase::Keep, "keep"@))
    } else if n == "localeLowerCase"@ {
        Some((NamingCase::Lowercase, "lowerCase"@))
    } else if n == "localeUpperCase"@ {
        Some((NamingCase::Uppercase, "upperCase"@))
    } else if n == "lowerCaseFirst"@ {
        Some((NamingCase::CamelCase, "camelCase"@))
    } else if n == "upperCaseFirst"@ {
        Some((NamingCase::PascalCase, "pascalCase"@))
    } else {
        None
    }
}

pub open spec fn deprecation_message(name: Seq<char>, suggested: Seq<char>) -> Seq<char> {
    "naming convention '"@ + name
        + "' is deprecated and will be removed in a future version, using '"@ + suggested
        + "' instead"@
}

pub open spec fn unknown_case_message(name: Seq<char>) -> Seq<char> {
    "unknown naming convention '"@ + name
        + "'. Valid options: keep, camelCase, pascalCase, constantCase, snakeCase, upperCase, lowerCase, capitalCase, dotCase, headerCase, noCase, paramCase, pathCase"@
}

/// What `parse_naming_case` returns for `s`: the case, with a deprecation
/// warning for deprecated names, or an error message for unknown names.
pub open spec fn parse_naming_case_spec(s: Seq<char>) -> Result<
    (NamingCase, Option<Seq<char>>),
    Seq<char>,
> {
    let name = after_last_hash(s);
    match direct_case(name) {
        Some(c) => Ok((c, None)),
        None => match deprecated_case(name) {
            Some((c, suggested)) => Ok((c, Some(deprecation_message(name, suggested)))),
            None => Err(unknown_case_message(name)),
        },
    }
}

/// The view of a parse result, strings by their characters.
pub open spec fn parse_result_view(r: Result<(NamingCase, Option<String>), String>) -> Result<
    (NamingCase, Option<Seq<char>>),
    Seq<char>,
> {
    match r {
        Ok((c, w)) => Ok(
            (
                c,
                match w {
                    Some(m) => Some(m@),
                    None => None,
                },
            ),
        ),
        Err(e) => Err(e@),
    }
}

/// Calls `str::rsplit_once` with a character. Claimed, as documented: `None`
/// exactly when `c` does not occur; otherwise the parts before and after the
/// last occurrence.
#[verifier::external_body]
fn rsplit_once_char(s: &str, c: char) -> (r: Option<(&str, &str)>)
    ensures
        r is None <==> !s@.contains(c),
        r matches Some(parts) ==> parts.0@ + seq![c] + parts.1@ == s@,
        r matches Some(parts) ==> !parts.1@.contains(c),
{
    s.rsplit_once(c)
}

proof fn lemma_after_last_hash_no_hash(s: Seq<char>)
    requires
        !s.contains('#'),
    ensures
        after_last_hash(s) == s,
    decreases s.len(),
{
    if s.len() > 0 {
        assert(!s.drop_last().contains('#')) by {
            if s.drop_last().contains('#') {
                let i = choose|i: int| 0 <= i < s.drop_last().len() && s.drop_last()[i] == '#';
                assert(s[i] == '#');
            }
        }
        lemma_after_last_hash_no_hash(s.drop_last());
        assert(s.last() != '#') by {
            assert(s[s.len() - 1] == s.last());
        }
        assert(s.drop_last().push(s.last()) == s);
    }
}

proof fn lemma_after_last_hash_split(a: Seq<char>, b: Seq<char>)
    requires
        !b.contains('#'),
    ensures
        after_last_hash(a + seq!['#'] + b) == b,
    decreases b.len(),
{
    let s = a + seq!['#'] + b;
    if b.len() == 0 {
        assert(s == a.push('#'));
        assert(s.last() == '#');
    } else {
        assert(!b.drop_last().contains('#')) by {
            if b.drop_last().contains('#') {
                let i = choose|i: int| 0 <= i < b.drop_last().len() && b.drop_last()[i] == '#';
                assert(b[i] == '#');
            }
        }
        lemma_after_last_hash_split(a, b.drop_last());
        assert(s.drop_last() == a + seq!['#'] + b.drop_last());
        assert(s.last() == b.last());
        assert(b.last() != '#') by {
            assert(b[b.len() - 1] == b.last());
        }
        assert(b.drop_last().push(b.last()) == b);
    }
}

fn direct_case_exec(n: &str) -> (r: Option<NamingCase>)
    ensures
        r == direct_case(n@),
{
    if str_eq(n, "keep") {
        Some(NamingCase::Keep)
    } else if str_eq(n, "pascalCase") || str_eq(n, "PascalCase") {
        Some(NamingCase::PascalCase)
    } else if str_eq(n, "camelCase") {
        Some(NamingCase::CamelCase)
    } else if str_eq(n, "constantCase") || str_eq(n, "CONSTANT_CASE") {
        Some(NamingCase::ConstantCase)
    } else if str_eq(n, "snakeCase") || str_eq(n, "snake_case") {
        Some(NamingCase::SnakeCase)
    } else if str_eq(n, "lowerCase") || str_eq(n, "lowercase") {
        Some(NamingCase::Lowercase)
    } else if str_eq(n, "upperCase") || str_eq(n, "uppercase") || str_eq(n, "UPPERCASE") {
        Some(NamingCase::Uppercase)
    } else if str_eq(n, "capitalCase") {
        Some(NamingCase::CapitalCase)
    } else if str_eq(n, "dotCase") {
        Some(NamingCase::DotCase)
    } else if str_eq(n, "headerCase") || str_eq(n, "Header-Case") {
        Some(NamingCase::HeaderCase)
    } else if str_eq(n, "noCase") {
        Some(NamingCase::NoCase)
    } else if str_eq(n, "paramCase") || str_eq(n, "kebabCase") || str_eq(n, "kebab-case") {
        Some(NamingCase::ParamCase)
    } else if str_eq(n, "pathCase") {
        Some(NamingCase::PathCase)
    } else {
        None
    }
}

fn deprecated_case_exec(n: &str) -> (r: Option<(NamingCase, &'static str)>)
    ensures
        match r {
            Some((c, sug)) => deprecated_case(n@) == Some((c, sug@)),
            None => deprecated_case(n@) is None,
        },
{
    if str_eq(n, "sentenceCase") {
        Some((NamingCase::CapitalCase, "capitalCase"))
    } else if str_eq(n, "titleCase") {
        Some((NamingCase::CapitalCase, "capitalCase"))
    } else if str_eq(n, "spongeCase") {
        Some((NamingCase::Keep, "keep"))
    } else if str_eq(n, "localeLowerCase") {
        Some((NamingCase::Lowercase, "lowerCase"))
    } else if str_eq(n, "localeUpperCase") {
        Some((NamingCase::Uppercase, "upperCase"))
    } else if str_eq(n, "lowerCaseFirst") {
        Some((NamingCase::CamelCase, "camelCase"))
    } else if str_eq(n, "upperCaseFirst") {
        Some((NamingCase::PascalCase, "pascalCase"))
    } else {
        None
    }
}

/// Parse a naming case name, in either the direct or the `module#name` form.
/// Returns the case and, for deprecated names, a warning.
pub fn parse_naming_case(s: &str) -> (r: Result<(NamingCase, Option<String>), String>)
    ensures
        parse_result_view(r) == parse_naming_case_spec(s@),
{
    // Strip a `change-case-all#` (or any `module#`) prefix
    let case_name: &str = match rsplit_once_char(s, '#') {
        Some((before, name)) => {
            proof {
                lemma_after_last_hash_split(before@, name@);
            }
            name
        },
        None => {
            proof {
                lemma_after_last_hash_no_hash(s@);
            }
            s
        },
    };
    if let Some(case) = direct_case_exec(case_name) {
        return Ok((case, None));
    }
    if let Some((case, suggested)) = deprecated_case_exec(case_name) {
        let mut warning = to_owned_string("naming convention '");
        push_str(&mut warning, case_name);
        push_str(
            &mut warning,
            "' is deprecated and will be removed in a future version, using '",
        );
        push_str(&mut warning, suggested);
        push_str(&mut warning, "' instead");
        return Ok((case, Some(warning)));
    }
    let mut err = to_owned_string("unknown naming convention '");
    push_str(&mut err, case_name);
    push_str(
        &mut err,
        "'. Valid options: keep, camelCase, pascalCase, constantCase, snakeCase, upperCase, lowerCase, capitalCase, dotCase, headerCase, noCase, paramCase, pathCase",
    );
    Err(err)
}

/// Any `module#` prefix is ignored: `module#name` parses exactly as `name`
/// does, for a name without `#`.
pub proof fn law_module_prefix_is_ignored(prefix: Seq<char>, name: Seq<char>)
    requires
        !name.contains('#'),
    ensures
        parse_naming_case_spec(prefix + seq!['#'] + name) == parse_naming_case_spec(name),
{
    lemma_after_last_hash_split(prefix, name);
    lemma_after_last_hash_no_hash(name);
}

/// The name a naming case is written with in a configuration file.
pub open spec fn case_name(c: NamingCase) -> Seq<char> {
    match c {
        NamingCase::Keep => "keep"@,
        NamingCase::PascalCase => "pascalCase"@,
        NamingCase::CamelCase => "camelCase"@,
        NamingCase::ConstantCase => "constantCase"@,
        NamingCase::SnakeCase => "snakeCase"@,
        NamingCase::Lowercase => "lowercase"@,
        NamingCase::Uppercase => "uppercase"@,
        NamingCase::CapitalCase => "capitalCase"@,
        NamingCase::DotCase => "dotCase"@,
        NamingCase::HeaderCase => "headerCase"@,
        NamingCase::NoCase => "noCase"@,
        NamingCase::ParamCase => "paramCase"@,
        NamingCase::PathCase => "pathCase"@,
    }
}

/// The name a naming case is written with parses back to that case, with no
/// deprecation warning.
pub proof fn law_case_name_parses_back(c: NamingCase)
    ensures
        parse_naming_case_spec(case_name(c)) == Ok::<_, Seq<char>>((c, None::<Seq<char>>)),
{
    reveal_strlit("keep");
    reveal_strlit("pascalCase");
    reveal_strlit("PascalCase");
    reveal_strlit("camelCase");
    reveal_strlit("constantCase");
    reveal_strlit("CONSTANT_CASE");
    reveal_strlit("snakeCase");
    reveal_strlit("snake_case");
    reveal_strlit("lowerCase");
    reveal_strlit("lowercase");
    reveal_strlit("upperCase");
    reveal_strlit("uppercase");
    reveal_strlit("UPPERCASE");
    reveal_strlit("capitalCase");
    reveal_strlit("dotCase");
    reveal_strlit("headerCase");
    reveal_strlit("Header-Case");
    reveal_strlit("noCase");
    reveal_strlit("paramCase");
    reveal_strlit("kebabCase");
    reveal_strlit("kebab-case");
    reveal_strlit("pathCase");
    let n = case_name(c);
    assert(!n.contains('#'));
    lemma_after_last_hash_no_hash(n);
    match c {
        NamingCase::Keep => assert(direct_case(n) == Some(c)),
        NamingCase::PascalCase => assert(direct_case(n) == Some(c)),
        NamingCase::CamelCase => assert(direct_case(n) == Some(c)),
        NamingCase::ConstantCase => assert(direct_case(n) == Some(c)),
        NamingCase::SnakeCase => {
            assert(n[0] != "camelCase"@[0]);
            assert(direct_case(n) == Some(c));
        },
        NamingCase::Lowercase => {
            assert(n[0] != "camelCase"@[0]);
            assert(n[0] != "snakeCase"@[0]);
            assert(direct_case(n) == Some(c));
        },
        NamingCase::Uppercase => {
            assert(n[0] != "camelCase"@[0]);
            assert(n[0] != "snakeCase"@[0]);
            assert(n[0] != "lowerCase"@[0]);
            assert(n[0] != "lowercase"@[0]);
            assert(n[5] != "upperCase"@[5]);
            assert(direct_case(n) == Some(c));
        },
        NamingCase::CapitalCase => assert(direct_case(n) == Some(c)),
        NamingCase::DotCase => assert(direct_case(n) == Some(c)),
        NamingCase::HeaderCase => {
            assert(n[0] != "pascalCase"@[0]);
            assert(n[0] != "PascalCase"@[0]);
            assert(n[0] != "snake_case"@[0]);
            assert(direct_case(n) == Some(c));
        },
        NamingCase::NoCase => assert(direct_case(n) == Some(c)),
        NamingCase::ParamCase => {
            assert(n[0] != "camelCase"@[0]);
            assert(n[0] != "snakeCase"@[0]);
            assert(n[0] != "lowerCase"@[0]);
            assert(n[0] != "lowercase"@[0]);
            assert(n[0] != "upperCase"@[0]);
            assert(n[0] != "uppercase"@[0]);
            assert(n[0] != "UPPERCASE"@[0]);
            assert(direct_case(n) == Some(c));
        },
        NamingCase::PathCase => assert(direct_case(n) == Some(c)),
    }
}

/// The names a configuration may give each case (the first-class and
/// compatibility names), with the case each one names.
pub open spec fn documented_case_names() -> Seq<(Seq<char>, NamingCase)> {
    seq![
        ("keep"@, NamingCase::Keep),
        ("pascalCase"@, NamingCase::PascalCase),
        ("PascalCase"@, NamingCase::PascalCase),
        ("camelCase"@, NamingCase::CamelCase),
        ("constantCase"@, NamingCase::ConstantCase),
        ("CONSTANT_CASE"@, NamingCase::ConstantCase),
        ("snakeCase"@, NamingCase::SnakeCase),
        ("snake_case"@, NamingCase::SnakeCase),
        ("lowerCase"@, NamingCase::Lowercase),
        ("lowercase"@, NamingCase::Lowercase),
        ("upperCase"@, NamingCase::Uppercase),
        ("uppercase"@, NamingCase::Uppercase),
        ("UPPERCASE"@, NamingCase::Uppercase),
        ("capitalCase"@, NamingCase::CapitalCase),
        ("dotCase"@, NamingCase::DotCase),
        ("headerCase"@, NamingCase::HeaderCase),
        ("Header-Case"@, NamingCase::HeaderCase),
        ("noCase"@, NamingCase::NoCase),
        ("paramCase"@, NamingCase::ParamCase),
        ("kebabCase"@, NamingCase::ParamCase),
        ("kebab-case"@, NamingCase::ParamCase),
        ("pathCase"@, NamingCase::PathCase),
    ]
}

/// The deprecated `change-case-all` names, with the case used in their place
/// and the name suggested instead.
pub open spec fn deprecated_case_names() -> Seq<(Seq<char>, NamingCase, Seq<char>)> {
    seq![
        ("sentenceCase"@, NamingCase::CapitalCase, "capitalCase"@),
        ("titleCase"@, NamingCase::CapitalCase, "capitalCase"@),
        ("spongeCase"@, NamingCase::Keep, "keep"@),
        ("localeLowerCase"@, NamingCase::Lowercase, "lowerCase"@),
        ("localeUpperCase"@, NamingCase::Uppercase, "upperCase"@),
        ("lowerCaseFirst"@, NamingCase::CamelCase, "camelCase"@),
        ("upperCaseFirst"@, NamingCase::PascalCase, "pascalCase"@),
    ]
}

/// Every documented name parses to the case it names, with no warning.
pub proof fn law_documented_names_parse(i: int)
    requires
        0 <= i < documented_case_names().len(),
    ensures
        parse_naming_case_spec(documented_case_names()[i].0) == Ok::<_, Seq<char>>(
            (documented_case_names()[i].1, None::<Seq<char>>),
        ),
{
    reveal_strlit("CONSTANT_CASE");
    reveal_strlit("Header-Case");
    reveal_strlit("PascalCase");
    reveal_strlit("UPPERCASE");
    reveal_strlit("camelCase");
    reveal_strlit("capitalCase");
    reveal_strlit("constantCase");
    reveal_strlit("dotCase");
    reveal_strlit("headerCase");
    reveal_strlit("kebab-case");
    reveal_strlit("kebabCase");
    reveal_strlit("keep");
    reveal_strlit("localeLowerCase");
    reveal_strlit("localeUpperCase");
    reveal_strlit("lowerCase");
    reveal_strlit("lowerCaseFirst");
    reveal_strlit("lowercase");
    reveal_strlit("noCase");
    reveal_strlit("paramCase");
    reveal_strlit("pascalCase");
    reveal_strlit("pathCase");
    reveal_strlit("sentenceCase");
    reveal_strlit("snakeCase");
    reveal_strlit("snake_case");
    reveal_strlit("spongeCase");
    reveal_strlit("titleCase");
    reveal_strlit("upperCase");
    reveal_strlit("upperCaseFirst");
    reveal_strlit("uppercase");
    let n = documented_case_names()[i].0;
    assert(!n.contains('#'));
    lemma_after_last_hash_no_hash(n);
    if i == 0 {
        assert(direct_case(n) == Some(NamingCase::Keep));
    } else if i == 1 {
        assert(direct_case(n) == Some(NamingCase::PascalCase));
    } else if i == 2 {
        assert(n[0] != "pascalCase"@[0]);
        assert(direct_case(n) == Some(NamingCase::PascalCase));
    } else if i == 3 {
        assert(direct_case(n) == Some(NamingCase::CamelCase));
    } else if i == 4 {
        assert(direct_case(n) == Some(NamingCase::ConstantCase));
    } else if i == 5 {
        assert(direct_case(n) == Some(NamingCase::ConstantCase));
    } else if i == 6 {
        assert(n[0] != "camelCase"@[0]);
        assert(direct_case(n) == Some(NamingCase::SnakeCase));
    } else if i == 7 {
        assert(n[0] != "pascalCase"@[0]);
        assert(n[0] != "PascalCase"@[0]);
        assert(direct_case(n) == Some(NamingCase::SnakeCase));
    } else if i == 8 {
        assert(n[0] != "camelCase"@[0]);
        assert(n[0] != "snakeCase"@[0]);
        assert(direct_case(n) == Some(NamingCase::Lowercase));
    } else if i == 9 {
        assert(n[0] != "camelCase"@[0]);
        assert(n[0] != "snakeCase"@[0]);
        assert(n[5] != "lowerCase"@[5]);
        assert(direct_case(n) == Some(NamingCase::Lowercase));
    } else if i == 10 {
        assert(n[0] != "camelCase"@[0]);
        assert(n[0] != "snakeCase"@[0]);
        assert(n[0] != "lowerCase"@[0]);
        assert(n[0] != "lowercase"@[0]);
        assert(direct_case(n) == Some(NamingCase::Uppercase));
    } else if i == 11 {
        assert(n[0] != "camelCase"@[0]);
        assert(n[0] != "snakeCase"@[0]);
        assert(n[0] != "lowerCase"@[0]);
        assert(n[0] != "lowercase"@[0]);
        assert(n[5] != "upperCase"@[5]);
        assert(direct_case(n) == Some(NamingCase::Uppercase));
    } else if i == 12 {
        assert(n[0] != "camelCase"@[0]);
        assert(n[0] != "snakeCase"@[0]);
        assert(n[0] != "lowerCase"@[0]);
        assert(n[0] != "lowercase"@[0]);
        assert(n[0] != "upperCase"@[0]);
        assert(n[0] != "uppercase"@[0]);
        assert(direct_case(n) == Some(NamingCase::Uppercase));
    } else if i == 13 {
        assert(direct_case(n) == Some(NamingCase::CapitalCase));
    } else if i == 14 {
        assert(direct_case(n) == Some(NamingCase::DotCase));
    } else if i == 15 {
        assert(n[0] != "pascalCase"@[0]);
        assert(n[0] != "PascalCase"@[0]);
        assert(n[0] != "snake_case"@[0]);
        assert(direct_case(n) == Some(NamingCase::HeaderCase));
    } else if i == 16 {
        assert(n[0] != "capitalCase"@[0]);
        assert(direct_case(n) == Some(NamingCase::HeaderCase));
    } else if i == 17 {
        assert(direct_case(n) == Some(NamingCase::NoCase));
    } else if i == 18 {
        assert(n[0] != "camelCase"@[0]);
        assert(n[0] != "snakeCase"@[0]);
        assert(n[0] != "lowerCase"@[0]);
        assert(n[0] != "lowercase"@[0]);
        assert(n[0] != "upperCase"@[0]);
        assert(n[0] != "uppercase"@[0]);
        assert(n[0] != "UPPERCASE"@[0]);
        assert(direct_case(n) == Some(NamingCase::ParamCase));
    } else if i == 19 {
        assert(n[0] != "camelCase"@[0]);
        assert(n[0] != "snakeCase"@[0]);
        assert(n[0] != "lowerCase"@[0]);
        assert(n[0] != "lowercase"@[0]);
        assert(n[0] != "upperCase"@[0]);
        assert(n[0] != "uppercase"@[0]);
        assert(n[0] != "UPPERCASE"@[0]);
        assert(n[0] != "paramCase"@[0]);
        assert(direct_case(n) == Some(NamingCase::ParamCase));
    } else if i == 20 {
        assert(n[0] != "pascalCase"@[0]);
        assert(n[0] != "PascalCase"@[0]);
        assert(n[0] != "snake_case"@[0]);
        assert(n[0] != "headerCase"@[0]);
        assert(direct_case(n) == Some(NamingCase::ParamCase));
    } else if i == 21 {
        assert(direct_case(n) == Some(NamingCase::PathCase));
    }
}

/// Every deprecated name parses to the case used in its place, with the
/// warning that names it and the name suggested instead.
pub proof fn law_deprecated_names_warn(i: int)
    requires
        0 <= i < deprecated_case_names().len(),
    ensures
        parse_naming_case_spec(deprecated_case_names()[i].0) == Ok::<_, Seq<char>>(
            (
                deprecated_case_names()[i].1,
                Some(deprecation_message(deprecated_case_names()[i].0, deprecated_case_names()[i].2)),
            ),
        ),
{
    reveal_strlit("CONSTANT_CASE");
    reveal_strlit("Header-Case");
    reveal_strlit("PascalCase");
    reveal_strlit("UPPERCASE");
    reveal_strlit("camelCase");
    reveal_strlit("capitalCase");
    reveal_strlit("constantCase");
    reveal_strlit("dotCase");
    reveal_strlit("headerCase");
    reveal_strlit("kebab-case");
    reveal_strlit("kebabCase");
    reveal_strlit("keep");
    reveal_strlit("localeLowerCase");
    reveal_strlit("localeUpperCase");
    reveal_strlit("lowerCase");
    reveal_strlit("lowerCaseFirst");
    reveal_strlit("lowercase");
    reveal_strlit("noCase");
    reveal_strlit("paramCase");
    reveal_strlit("pascalCase");
    reveal_strlit("pathCase");
    reveal_strlit("sentenceCase");
    reveal_strlit("snakeCase");
    reveal_strlit("snake_case");
    reveal_strlit("spongeCase");
    reveal_strlit("titleCase");
    reveal_strlit("upperCase");
    reveal_strlit("upperCaseFirst");
    reveal_strlit("uppercase");
    let n = deprecated_case_names()[i].0;
    assert(!n.contains('#'));
    lemma_after_last_hash_no_hash(n);
    if i == 0 {
        assert(n[0] != "constantCase"@[0]);
        assert(direct_case(n) is None);
    } else if i == 1 {
        assert(n[0] != "camelCase"@[0]);
        assert(n[0] != "snakeCase"@[0]);
        assert(n[0] != "lowerCase"@[0]);
        assert(n[0] != "lowercase"@[0]);
        assert(n[0] != "upperCase"@[0]);
        assert(n[0] != "uppercase"@[0]);
        assert(n[0] != "UPPERCASE"@[0]);
        assert(n[0] != "paramCase"@[0]);
        assert(n[0] != "kebabCase"@[0]);
        assert(direct_case(n) is None);
    } else if i == 2 {
        assert(n[0] != "pascalCase"@[0]);
        assert(n[0] != "PascalCase"@[0]);
        assert(n[1] != "snake_case"@[1]);
        assert(n[0] != "headerCase"@[0]);
        assert(n[0] != "kebab-case"@[0]);
        assert(direct_case(n) is None);
    } else if i == 3 {
        assert(direct_case(n) is None);
    } else if i == 4 {
        assert(n[6] != "localeLowerCase"@[6]);
        assert(direct_case(n) is None);
    } else if i == 5 {
        assert(direct_case(n) is None);
    } else if i == 6 {
        assert(n[0] != "lowerCaseFirst"@[0]);
        assert(direct_case(n) is None);
    }
}

/// The camelCase style lowercases the first word (ASCII) where the
/// PascalCase style capitalizes it; both keep the same underscores and write
/// every later word the same way.
pub proof fn law_apply_camel_lowers_first_word(s: Seq<char>, tu: bool)
    ensures
        split_words_spec(s).len() == 0 ==> apply_spec(NamingCase::CamelCase, s, tu) == apply_spec(
            NamingCase::PascalCase,
            s,
            tu,
        ),
        split_words_spec(s).len() > 0 ==> ({
            let ws = split_words_spec(s);
            let rest = later_words(ws, tu) + kept_underscores(trailing_underscores(s), tu);
            &&& apply_spec(NamingCase::CamelCase, s, tu) == kept_underscores(ws[0].1, tu)
                + ascii_lower_seq(ws[0].0) + rest
            &&& apply_spec(NamingCase::PascalCase, s, tu) == kept_underscores(ws[0].1, tu) + capitalized(
                ws[0].0,
            ) + rest
        }),
{
    law_camel_lowers_first_word(s, tu);
}

/// The lowercase word styles differ only in their separators: param-case,
/// dot.case, path/case and "no case" are snake_case with `-`, `.`, `/` and
/// ` ` for `_`; Header-Case is "Capital Case" with `-` for ` `. (When no
/// restyled word holds the separator replaced.)
pub proof fn law_apply_styles_differ_in_separator(s: Seq<char>, tu: bool)
    ensures
        (forall|i: int|
            0 <= i < styled_words(split_words_spec(s), WordStyle::Lower).len() ==> !(#[trigger] styled_words(
                split_words_spec(s),
                WordStyle::Lower,
            )[i]).contains('_')) ==> {
            let snake = apply_spec(NamingCase::SnakeCase, s, tu);
            &&& replace_char(snake, '_', '-') == apply_spec(NamingCase::ParamCase, s, tu)
            &&& replace_char(snake, '_', '.') == apply_spec(NamingCase::DotCase, s, tu)
            &&& replace_char(snake, '_', '/') == apply_spec(NamingCase::PathCase, s, tu)
            &&& replace_char(snake, '_', ' ') == apply_spec(NamingCase::NoCase, s, tu)
        },
        (forall|i: int|
            0 <= i < styled_words(split_words_spec(s), WordStyle::Capital).len() ==> !(#[trigger] styled_words(
                split_words_spec(s),
                WordStyle::Capital,
            )[i]).contains(' ')) ==> replace_char(apply_spec(NamingCase::CapitalCase, s, tu), ' ', '-')
            == apply_spec(NamingCase::HeaderCase, s, tu),
{
    if forall|i: int|
        0 <= i < styled_words(split_words_spec(s), WordStyle::Lower).len() ==> !(#[trigger] styled_words(
            split_words_spec(s),
            WordStyle::Lower,
        )[i]).contains('_') {
        law_styles_differ_in_separator(s, WordStyle::Lower, '_', '-');
        law_styles_differ_in_separator(s, WordStyle::Lower, '_', '.');
        law_styles_differ_in_separator(s, WordStyle::Lower, '_', '/');
        law_styles_differ_in_separator(s, WordStyle::Lower, '_', ' ');
    }
    if forall|i: int|
        0 <= i < styled_words(split_words_spec(s), WordStyle::Capital).len() ==> !(#[trigger] styled_words(
            split_words_spec(s),
            WordStyle::Capital,
        )[i]).contains(' ') {
        law_styles_differ_in_separator(s, WordStyle::Capital, ' ', '-');
    }
}

} // verus!
