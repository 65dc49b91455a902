//! Configuration types.
//!
//! The configuration names the schema and document files, and for each
//! output file the generators to run with their options. Options left unset
//! fall back to opinionated defaults chosen for TypeScript type-checking
//! performance and type safety.
use vstd::prelude::*;

use std::collections::BTreeMap;
use std::collections::HashMap;

pub use crate::casing::{NamingCase, NamingConvention, NamingConventionConfig};
use crate::text::to_owned_string;

verus! {

/// Main configuration.
#[derive(Debug, Clone)]
pub struct CodegenConfig {
    /// Path to GraphQL schema file(s)
    pub schema: StringOrArray,
    /// Glob patterns for documents
    pub documents: StringOrArray,
    /// Output configurations keyed by output path
    pub outputs: HashMap<String, OutputConfig>,
    /// Pre-resolved schema SDL strings, parsed alongside the `schema` files.
    pub schema_content: Option<Vec<String>>,
    /// Lifecycle hooks — shell commands run after generation
    pub hooks: Option<HooksConfig>,
}

/// Either a single string or array of strings.
#[derive(Debug, Clone)]
pub enum StringOrArray {
    Single(String),
    Multiple(Vec<String>),
}

impl StringOrArray {
    /// The strings, in order.
    pub open spec fn items(&self) -> Seq<Seq<char>> {
        match self {
            StringOrArray::Single(s) => seq![s@],
            StringOrArray::Multiple(v) => v@.map_values(|s: String| s@),
        }
    }

    pub fn as_vec(&self) -> (r: Vec<&str>)
        ensures
            r@.map_values(|s: &str| s@) == self.items(),
    {
        match self {
            StringOrArray::Single(s) => {
                let mut r: Vec<&str> = Vec::new();
                r.push(s.as_str());
                proof {
                    assert(r@.map_values(|s: &str| s@) =~= self.items());
                }
                r
            },
            StringOrArray::Multiple(v) => {
                let mut r: Vec<&str> = Vec::new();
                let mut i: usize = 0;
                while i < v.len()
                    invariant
                        i <= v@.len(),
                        r@.len() == i,
                        forall|j: int| 0 <= j < i ==> (#[trigger] r@[j])@ == v@[j]@,
                    decreases v@.len() - i,
                {
                    r.push(v[i].as_str());
                    i = i + 1;
                }
                proof {
                    assert(r@.map_values(|s: &str| s@) =~= self.items());
                }
                r
            },
        }
    }

    pub fn into_vec(self) -> (r: Vec<String>)
        ensures
            r@.map_values(|s: String| s@) == self.items(),
    {
        match self {
            StringOrArray::Single(s) => {
                let ghost sv = s@;
                let mut r: Vec<String> = Vec::new();
                r.push(s);
                proof {
                    assert(r@.map_values(|s: String| s@) =~= seq![sv]);
                }
                r
            },
            StringOrArray::Multiple(v) => v,
        }
    }
}

/// Configuration for a single output file.
#[derive(Debug, Clone)]
pub struct OutputConfig {
    /// Generators to run. Defaults to all built-in generators when omitted.
    pub generators: Option<Vec<GeneratorConfig>>,
    /// Content to prepend
    pub prelude: Option<String>,
    /// Shared config for all generators in this output
    pub config: Option<GeneratorOptions>,
}

/// Generator configuration — either just a name, or entries that map a
/// generator name to its options (in practice a single entry).
#[derive(Debug, Clone)]
pub enum GeneratorConfig {
    /// Just the generator name string
    Name(String),
    /// Object with generator name as key and config as value
    WithConfig(Vec<(String, GeneratorOptions)>),
}

impl GeneratorConfig {
    /// The generator name: the name itself, or the first entry's key
    /// (empty when there is none).
    pub open spec fn name_spec(&self) -> Seq<char> {
        match self {
            GeneratorConfig::Name(n) => n@,
            GeneratorConfig::WithConfig(m) => if m@.len() > 0 {
                m@[0].0@
            } else {
                Seq::empty()
            },
        }
    }

    /// Get the generator name.
    pub fn name(&self) -> (r: &str)
        ensures
            r@ == self.name_spec(),
    {
        match self {
            GeneratorConfig::Name(name) => name.as_str(),
            GeneratorConfig::WithConfig(map) => {
                if map.len() > 0 {
                    map[0].0.as_str()
                } else {
                    proof {
                        reveal_strlit("");
                    }
                    ""
                }
            },
        }
    }

    /// Get the generator-specific config if any: the first entry's options.
    pub fn options(&self) -> (r: Option<&GeneratorOptions>)
        ensures
            r == match self {
                GeneratorConfig::Name(_) => None,
                GeneratorConfig::WithConfig(m) => if m@.len() > 0 {
                    Some(&m@[0].1)
                } else {
                    None
                },
            },
    {
        match self {
            GeneratorConfig::Name(_) => None,
            GeneratorConfig::WithConfig(map) => {
                if map.len() > 0 {
                    Some(&map[0].1)
                } else {
                    None
                }
            },
        }
    }
}

/// Per-position avoid-optionals flags; unset flags count as `false`.
#[derive(Debug, Clone, Copy, Default, PartialEq, Eq, Hash)]
pub struct AvoidOptionalsConfig {
    pub field: Option<bool>,
    pub object: Option<bool>,
    pub input_value: Option<bool>,
    pub default_value: Option<bool>,
    pub resolvers: Option<bool>,
    pub query: Option<bool>,
    pub mutation: Option<bool>,
    pub subscription: Option<bool>,
}

impl AvoidOptionalsConfig {
    pub fn new(
        field: Option<bool>,
        object: Option<bool>,
        input_value: Option<bool>,
        default_value: Option<bool>,
        resolvers: Option<bool>,
        query: Option<bool>,
        mutation: Option<bool>,
        subscription: Option<bool>,
    ) -> (r: Self)
        ensures
            r.field == field,
            r.object == object,
            r.input_value == input_value,
            r.default_value == default_value,
            r.resolvers == resolvers,
            r.query == query,
            r.mutation == mutation,
            r.subscription == subscription,
    {
        AvoidOptionalsConfig {
            field,
            object,
            input_value,
            default_value,
            resolvers,
            query,
            mutation,
            subscription,
        }
    }
}

/// Whether to avoid optionals: everywhere or nowhere, or per position.
#[derive(Debug, Clone, Copy, PartialEq, Eq, Hash)]
pub enum AvoidOptionals {
    Boolean(bool),
    Complex(AvoidOptionalsConfig),
}

impl Default for AvoidOptionals {
    fn default() -> (r: Self)
        ensures
            r == AvoidOptionals::Boolean(false),
    {
        AvoidOptionals::Boolean(false)
    }
}

/// Resolved avoid-optionals flags — all fields are concrete bools.
#[derive(Debug, Clone, Copy)]
pub struct NormalizedAvoidOptionals {
    pub field: bool,
    pub object: bool,
    pub input_value: bool,
    pub default_value: bool,
}

/// An optional flag, `false` when unset.
pub open spec fn flag(b: Option<bool>) -> bool {
    match b {
        Some(v) => v,
        None => false,
    }
}

fn flag_exec(b: Option<bool>) -> (r: bool)
    ensures
        r == flag(b),
{
    match b {
        Some(v) => v,
        None => false,
    }
}

impl AvoidOptionals {
    pub fn normalize(&self) -> (r: NormalizedAvoidOptionals)
        ensures
            match self {
                AvoidOptionals::Boolean(b) => r.field == *b && r.object == *b && r.input_value == *b
                    && r.default_value == *b,
                AvoidOptionals::Complex(c) => r.field == flag(c.field) && r.object == flag(c.object)
                    && r.input_value == flag(c.input_value) && r.default_value == flag(
                    c.default_value,
                ),
            },
    {
        match self {
            AvoidOptionals::Boolean(b) => NormalizedAvoidOptionals {
                field: *b,
                object: *b,
                input_value: *b,
                default_value: *b,
            },
            AvoidOptionals::Complex(c) => NormalizedAvoidOptionals {
                field: flag_exec(c.field),
                object: flag_exec(c.object),
                input_value: flag_exec(c.input_value),
                default_value: flag_exec(c.default_value),
            },
        }
    }
}

/// A scalar mapping with both directions spelled out.
pub struct ScalarConfigNormalized {
    pub input: String,
    pub output: String,
}

/// A scalar mapping: one type for both directions, or one for each.
#[derive(Debug, Clone, Hash, PartialEq, Eq)]
pub enum ScalarConfig {
    Simple(String),
    Detailed { input: String, output: String },
}

impl ScalarConfig {
    pub fn normalize(&self) -> (r: ScalarConfigNormalized)
        ensures
            match self {
                ScalarConfig::Simple(s) => r.input@ == s@ && r.output@ == s@,
                ScalarConfig::Detailed { input, output } => r.input@ == input@ && r.output@
                    == output@,
            },
    {
        match self {
            ScalarConfig::Simple(s) => ScalarConfigNormalized { input: s.clone(), output: s.clone() },
            ScalarConfig::Detailed { input, output } => ScalarConfigNormalized {
                input: input.clone(),
                output: output.clone(),
            },
        }
    }
}

/// Generator options — shared config structure for all generators.
///
/// Fields that users may set are optional, so that "not set" (`None`) is
/// told apart from "explicitly set to false" (`Some(false)`).
#[derive(Debug, Clone, Hash, PartialEq, Eq)]
pub struct GeneratorOptions {
    /// Custom scalar mappings (GraphQL scalar name -> TypeScript type)
    pub scalars: BTreeMap<String, ScalarConfig>,
    /// Add readonly modifier to generated types
    pub immutable_types: Option<bool>,
    /// Generate enums as TypeScript string union types
    pub enums_as_types: Option<bool>,
    /// Add future-proof "%future added value" to enums
    pub future_proof_enums: Option<bool>,
    /// Add future-proof entry to union types
    pub future_proof_unions: Option<bool>,
    /// Use `interface` or `type` for generated types
    pub declaration_kind: Option<DeclarationKind>,
    /// Prefix to add to all generated type names
    pub type_name_prefix: Option<String>,
    /// Suffix to add to all generated type names
    pub type_name_suffix: Option<String>,
    /// Error if a custom scalar is found without a mapping in `scalars`
    pub strict_scalars: bool,
    /// Only generate types that are referenced in operations
    pub only_referenced_types: bool,
    /// Default type to use for unknown scalars
    pub default_scalar_type: Option<String>,
    /// Controls how `__typename` is emitted
    pub typename_policy: Option<TypenamePolicy>,
    /// Naming convention for generated types
    pub naming_convention: Option<NamingConvention>,
}

/// The fixed defaults: interfaces, enums as types, future-proof enums and
/// unions, immutable types, `unknown` for unmapped scalars and `__typename`
/// always emitted.
pub open spec fn is_default_options(o: GeneratorOptions) -> bool {
    &&& o.scalars@.is_empty()
    &&& o.declaration_kind == Some(DeclarationKind::Interface)
    &&& o.enums_as_types == Some(true)
    &&& o.future_proof_enums == Some(true)
    &&& o.future_proof_unions == Some(true)
    &&& o.immutable_types == Some(true)
    &&& !o.only_referenced_types
    &&& o.default_scalar_type matches Some(t) && t@ == "unknown"@
    &&& o.typename_policy == Some(TypenamePolicy::Always)
    &&& !o.strict_scalars
    &&& o.type_name_prefix is None
    &&& o.type_name_suffix is None
    &&& o.naming_convention is None
}

impl Default for GeneratorOptions {
    fn default() -> (r: Self)
        ensures
            is_default_options(r),
    {
        GeneratorOptions {
            scalars: BTreeMap::new(),
            declaration_kind: Some(DeclarationKind::Interface),
            enums_as_types: Some(true),
            future_proof_enums: Some(true),
            future_proof_unions: Some(true),
            immutable_types: Some(true),
            only_referenced_types: false,
            default_scalar_type: Some(to_owned_string("unknown")),
            typename_policy: Some(TypenamePolicy::Always),
            strict_scalars: false,
            type_name_prefix: None,
            type_name_suffix: None,
            naming_convention: None,
        }
    }
}

/// An optional setting, with the given fallback when unset.
pub open spec fn or_else<T>(o: Option<T>, fallback: T) -> T {
    match o {
        Some(v) => v,
        None => fallback,
    }
}

impl GeneratorOptions {
    /// Resolve the effective typename policy.
    pub fn resolved_typename_policy(&self) -> (r: TypenamePolicy)
        ensures
            r == or_else(self.typename_policy, TypenamePolicy::Always),
    {
        match self.typename_policy {
            Some(p) => p,
            None => TypenamePolicy::Always,
        }
    }

    /// Resolve immutable_types with the default fallback.
    pub fn immutable_types(&self) -> (r: bool)
        ensures
            r == or_else(self.immutable_types, true),
    {
        match self.immutable_types {
            Some(b) => b,
            None => true,
        }
    }

    /// Resolve future_proof_enums with the default fallback.
    pub fn future_proof_enums(&self) -> (r: bool)
        ensures
            r == or_else(self.future_proof_enums, true),
    {
        match self.future_proof_enums {
            Some(b) => b,
            None => true,
        }
    }

    /// Resolve future_proof_unions with the default fallback.
    pub fn future_proof_unions(&self) -> (r: bool)
        ensures
            r == or_else(self.future_proof_unions, true),
    {
        match self.future_proof_unions {
            Some(b) => b,
            None => true,
        }
    }
}

/// Controls how `__typename` is emitted in generated types.
#[derive(Debug, Clone, Copy, PartialEq, Eq, Structural, Hash)]
pub enum TypenamePolicy {
    /// Always inject `__typename?: 'Type'` on every selection set.
    Always,
    /// Only emit `__typename` when explicitly selected in the query.
    AsSelected,
    /// Never emit `__typename`.
    Skip,
}

impl Default for TypenamePolicy {
    fn default() -> (r: Self)
        ensures
            r == TypenamePolicy::Always,
    {
        TypenamePolicy::Always
    }
}

/// Declaration kind for generated types.
#[derive(Debug, Clone, Copy, PartialEq, Eq, Structural, Hash)]
pub enum DeclarationKind {
    Type,
    Interface,
    Class,
    AbstractClass,
}

impl Default for DeclarationKind {
    fn default() -> (r: Self)
        ensures
            r == DeclarationKind::Type,
    {
        DeclarationKind::Type
    }
}

/// The tag that generated documents are wrapped in.
#[derive(Debug, Clone, Copy, PartialEq, Eq, Structural, Hash)]
pub enum GraphqlTag {
    Gql,
    Graphql,
    /// No tag at all
    Untagged,
}

impl Default for GraphqlTag {
    fn default() -> (r: Self)
        ensures
            r == GraphqlTag::Gql,
    {
        GraphqlTag::Gql
    }
}

/// Lifecycle hooks — shell commands run after generation.
/// Commands receive file paths as trailing arguments.
#[derive(Debug, Clone, PartialEq, Eq, Hash)]
pub struct HooksConfig {
    /// Commands to run after all files are generated (receives all file paths)
    pub after_generate: Vec<String>,
}

impl Default for HooksConfig {
    fn default() -> (r: Self)
        ensures
            r.after_generate@.len() == 0,
    {
        HooksConfig { after_generate: Vec::new() }
    }
}

} // verus!
