//! Generation planning: what each output file is made of.
//!
//! Each output starts with its prelude, then runs its generators in order.
//! Every generator receives the defaults, overridden by the options shared by
//! the output, overridden in turn by the generator's own options. An option
//! overrides only where it is set.
use vstd::prelude::*;

use std::collections::BTreeMap;

use crate::config::{
    is_default_options, DeclarationKind, GeneratorConfig, GeneratorOptions, OutputConfig,
    ScalarConfig, TypenamePolicy,
};
use crate::cache::MetadataCheckResult;
use crate::diagnostic::Diagnostics;
use crate::text::{push_char, push_str, to_owned_string};

verus! {

/// Result of code generation.
#[derive(Debug, Clone)]
pub struct GenerateResult {
    /// Generated files
    pub files: Vec<GeneratedFile>,
    /// Diagnostics encountered during generation (warnings, info)
    pub diagnostics: Diagnostics,
}

/// A single generated file.
#[derive(Debug, Clone)]
pub struct GeneratedFile {
    /// Output path
    pub path: String,
    /// Generated content
    pub content: String,
}

/// Result of cached generation.
#[derive(Debug)]
pub enum GenerateCachedResult {
    /// Cache hit - inputs unchanged, no regeneration needed
    Fresh,
    /// Generated new output
    Generated(GenerateResult),
}

// ── Merging options ────────────────────────────────────────────────────────

/// Options with every field unset: what deserialization leaves for fields
/// that the configuration does not mention.
pub open spec fn is_unset_options(o: GeneratorOptions) -> bool {
    &&& o.scalars@.is_empty()
    &&& o.immutable_types is None
    &&& o.enums_as_types is None
    &&& o.future_proof_enums is None
    &&& o.future_proof_unions is None
    &&& o.declaration_kind is None
    &&& o.type_name_prefix is None
    &&& o.type_name_suffix is None
    &&& !o.strict_scalars
    &&& o.default_scalar_type is None
    &&& o.naming_convention is None
    &&& o.typename_policy is None
    &&& !o.only_referenced_types
}

/// The same options, field by field (scalars by their contents).
pub open spec fn same_options(a: GeneratorOptions, b: GeneratorOptions) -> bool {
    &&& a.scalars@ == b.scalars@
    &&& a.immutable_types == b.immutable_types
    &&& a.enums_as_types == b.enums_as_types
    &&& a.future_proof_enums == b.future_proof_enums
    &&& a.future_proof_unions == b.future_proof_unions
    &&& a.declaration_kind == b.declaration_kind
    &&& a.type_name_prefix == b.type_name_prefix
    &&& a.type_name_suffix == b.type_name_suffix
    &&& a.strict_scalars == b.strict_scalars
    &&& a.default_scalar_type == b.default_scalar_type
    &&& a.naming_convention == b.naming_convention
    &&& a.typename_policy == b.typename_policy
    &&& a.only_referenced_types == b.only_referenced_types
}

/// `v` where it is set, else `base`.
pub open spec fn pick<T>(v: Option<T>, base: Option<T>) -> Option<T> {
    if v is Some {
        v
    } else {
        base
    }
}

/// `r` is `base` overridden by every field that `g` sets: a non-empty scalar
/// map, a `true` flag, a present option.
pub open spec fn merged(r: GeneratorOptions, base: GeneratorOptions, g: GeneratorOptions) -> bool {
    &&& r.scalars@ == (if g.scalars@.is_empty() {
        base.scalars@
    } else {
        g.scalars@
    })
    &&& r.strict_scalars == (g.strict_scalars || base.strict_scalars)
    &&& r.default_scalar_type == pick(g.default_scalar_type, base.default_scalar_type)
    &&& r.immutable_types == pick(g.immutable_types, base.immutable_types)
    &&& r.enums_as_types == pick(g.enums_as_types, base.enums_as_types)
    &&& r.future_proof_enums == pick(g.future_proof_enums, base.future_proof_enums)
    &&& r.future_proof_unions == pick(g.future_proof_unions, base.future_proof_unions)
    &&& r.declaration_kind == pick(g.declaration_kind, base.declaration_kind)
    &&& r.type_name_prefix == pick(g.type_name_prefix, base.type_name_prefix)
    &&& r.type_name_suffix == pick(g.type_name_suffix, base.type_name_suffix)
    &&& r.naming_convention == pick(g.naming_convention, base.naming_convention)
    &&& r.typename_policy == pick(g.typename_policy, base.typename_policy)
    &&& r.only_referenced_types == (g.only_referenced_types || base.only_referenced_types)
}

/// What deserialization produces for each field that is not given: every
/// option unset, every flag `false`, no scalars.
pub fn serde_field_defaults() -> (r: GeneratorOptions)
    ensures
        is_unset_options(r),
{
    GeneratorOptions {
        scalars: BTreeMap::new(),
        immutable_types: None,
        enums_as_types: None,
        future_proof_enums: None,
        future_proof_unions: None,
        declaration_kind: None,
        type_name_prefix: None,
        type_name_suffix: None,
        strict_scalars: false,
        default_scalar_type: None,
        naming_convention: None,
        typename_policy: None,
        only_referenced_types: false,
    }
}

fn clone_text(o: &Option<String>) -> (r: Option<String>)
    ensures
        r == *o,
{
    match o {
        Some(s) => Some(s.clone()),
        None => None,
    }
}

fn pick_text(v: &Option<String>, base: &Option<String>) -> (r: Option<String>)
    ensures
        r == pick(*v, *base),
{
    if v.is_some() {
        clone_text(v)
    } else {
        clone_text(base)
    }
}

fn pick_copy<T: Copy>(v: Option<T>, base: Option<T>) -> (r: Option<T>)
    ensures
        r == pick(v, base),
{
    if v.is_some() {
        v
    } else {
        base
    }
}

fn clone_scalars(m: &BTreeMap<String, ScalarConfig>) -> (r: BTreeMap<String, ScalarConfig>)
    ensures
        r@ == m@,
{
    m.clone()
}

/// A copy of the options.
pub fn copy_options(o: &GeneratorOptions) -> (r: GeneratorOptions)
    ensures
        same_options(r, *o),
{
    GeneratorOptions {
        scalars: clone_scalars(&o.scalars),
        immutable_types: o.immutable_types,
        enums_as_types: o.enums_as_types,
        future_proof_enums: o.future_proof_enums,
        future_proof_unions: o.future_proof_unions,
        declaration_kind: o.declaration_kind,
        type_name_prefix: clone_text(&o.type_name_prefix),
        type_name_suffix: clone_text(&o.type_name_suffix),
        strict_scalars: o.strict_scalars,
        default_scalar_type: clone_text(&o.default_scalar_type),
        naming_convention: o.naming_convention,
        typename_policy: o.typename_policy,
        only_referenced_types: o.only_referenced_types,
    }
}

/// Merge base options with generator-specific overrides.
///
/// A field of the generator's options overrides the base where it differs
/// from what deserialization leaves for an unset field.
pub fn merge_options(base: &GeneratorOptions, generator: Option<&GeneratorOptions>) -> (r: GeneratorOptions)
    ensures
        match generator {
            None => same_options(r, *base),
            Some(g) => merged(r, *base, *g),
        },
{
    let g = match generator {
        None => {
            return copy_options(base);
        },
        Some(g) => g,
    };
    GeneratorOptions {
        scalars: if g.scalars.is_empty() {
            clone_scalars(&base.scalars)
        } else {
            clone_scalars(&g.scalars)
        },
        strict_scalars: g.strict_scalars || base.strict_scalars,
        default_scalar_type: pick_text(&g.default_scalar_type, &base.default_scalar_type),
        immutable_types: pick_copy(g.immutable_types, base.immutable_types),
        enums_as_types: pick_copy(g.enums_as_types, base.enums_as_types),
        future_proof_enums: pick_copy(g.future_proof_enums, base.future_proof_enums),
        future_proof_unions: pick_copy(g.future_proof_unions, base.future_proof_unions),
        declaration_kind: pick_copy(g.declaration_kind, base.declaration_kind),
        type_name_prefix: pick_text(&g.type_name_prefix, &base.type_name_prefix),
        type_name_suffix: pick_text(&g.type_name_suffix, &base.type_name_suffix),
        naming_convention: pick_copy(g.naming_convention, base.naming_convention),
        typename_policy: pick_copy(g.typename_policy, base.typename_policy),
        only_referenced_types: g.only_referenced_types || base.only_referenced_types,
    }
}

/// Merging options in which nothing is set changes nothing.
pub proof fn law_merge_unset_is_identity(r: GeneratorOptions, base: GeneratorOptions, g: GeneratorOptions)
    requires
        is_unset_options(g),
        merged(r, base, g),
    ensures
        same_options(r, base),
{
}

/// A field that the generator sets wins over the base; one it leaves unset
/// keeps the base's value. For every option field: set means present; for
/// the scalar map, non-empty; for a flag, `true`.
pub proof fn law_merge_set_field_wins(r: GeneratorOptions, base: GeneratorOptions, g: GeneratorOptions)
    requires
        merged(r, base, g),
    ensures
        g.immutable_types is Some ==> r.immutable_types == g.immutable_types,
        g.immutable_types is None ==> r.immutable_types == base.immutable_types,
        g.enums_as_types is Some ==> r.enums_as_types == g.enums_as_types,
        g.enums_as_types is None ==> r.enums_as_types == base.enums_as_types,
        g.future_proof_enums is Some ==> r.future_proof_enums == g.future_proof_enums,
        g.future_proof_enums is None ==> r.future_proof_enums == base.future_proof_enums,
        g.future_proof_unions is Some ==> r.future_proof_unions == g.future_proof_unions,
        g.future_proof_unions is None ==> r.future_proof_unions == base.future_proof_unions,
        g.declaration_kind is Some ==> r.declaration_kind == g.declaration_kind,
        g.declaration_kind is None ==> r.declaration_kind == base.declaration_kind,
        g.type_name_prefix is Some ==> r.type_name_prefix == g.type_name_prefix,
        g.type_name_prefix is None ==> r.type_name_prefix == base.type_name_prefix,
        g.type_name_suffix is Some ==> r.type_name_suffix == g.type_name_suffix,
        g.type_name_suffix is None ==> r.type_name_suffix == base.type_name_suffix,
        g.default_scalar_type is Some ==> r.default_scalar_type == g.default_scalar_type,
        g.default_scalar_type is None ==> r.default_scalar_type == base.default_scalar_type,
        g.naming_convention is Some ==> r.naming_convention == g.naming_convention,
        g.naming_convention is None ==> r.naming_convention == base.naming_convention,
        g.typename_policy is Some ==> r.typename_policy == g.typename_policy,
        g.typename_policy is None ==> r.typename_policy == base.typename_policy,
        !g.scalars@.is_empty() ==> r.scalars@ == g.scalars@,
        g.scalars@.is_empty() ==> r.scalars@ == base.scalars@,
        g.strict_scalars ==> r.strict_scalars,
        !g.strict_scalars ==> r.strict_scalars == base.strict_scalars,
        g.only_referenced_types ==> r.only_referenced_types,
        !g.only_referenced_types ==> r.only_referenced_types == base.only_referenced_types,
{
}

/// Merging is idempotent: merging the same overrides twice gives what
/// merging them once gives.
pub proof fn law_merge_idempotent(
    r1: GeneratorOptions,
    r2: GeneratorOptions,
    base: GeneratorOptions,
    g: GeneratorOptions,
)
    requires
        merged(r1, base, g),
        merged(r2, r1, g),
    ensures
        same_options(r2, r1),
{
}

// ── Planning outputs ───────────────────────────────────────────────────────

/// The names of the generators that run when an output names none.
pub open spec fn default_generator_names() -> Seq<Seq<char>> {
    seq!["schema-types"@, "operation-types"@]
}

/// The generators that run when an output names none, each by name alone.
pub fn default_generators() -> (r: Vec<GeneratorConfig>)
    ensures
        r@.len() == 2,
        r@[0] matches GeneratorConfig::Name(n) && n@ == default_generator_names()[0],
        r@[1] matches GeneratorConfig::Name(n) && n@ == default_generator_names()[1],
{
    let mut r: Vec<GeneratorConfig> = Vec::new();
    r.push(GeneratorConfig::Name(to_owned_string("schema-types")));
    r.push(GeneratorConfig::Name(to_owned_string("operation-types")));
    r
}

/// A generator to run, with its resolved options.
pub struct GeneratorPlan {
    pub name: String,
    pub options: GeneratorOptions,
}

/// What an output file is made of: its path, the text that precedes the
/// generated code, the options shared by its generators, and its generators.
pub struct OutputPlan {
    pub path: String,
    pub prelude: String,
    pub base_options: GeneratorOptions,
    pub generators: Vec<GeneratorPlan>,
}

/// The options of a generator configuration, as a spec value.
pub open spec fn config_options(g: GeneratorConfig) -> Option<GeneratorOptions> {
    match g {
        GeneratorConfig::Name(_) => None,
        GeneratorConfig::WithConfig(m) => if m@.len() > 0 {
            Some(m@[0].1)
        } else {
            None
        },
    }
}

/// The generator plan runs `g` with the base overridden by `g`'s options.
pub open spec fn planned(p: GeneratorPlan, g: GeneratorConfig, base: GeneratorOptions) -> bool {
    &&& p.name@ == g.name_spec()
    &&& match config_options(g) {
        None => same_options(p.options, base),
        Some(o) => merged(p.options, base, o),
    }
}

/// The plan of an output: the prelude followed by a line feed when there is
/// one; the defaults overridden by the output's shared options; and the
/// output's generators (the default ones when it names none), each with the
/// shared options overridden by its own.
pub open spec fn is_output_plan(r: OutputPlan, path: Seq<char>, output: OutputConfig) -> bool {
    &&& r.path@ == path
    &&& r.prelude@ == match output.prelude {
        Some(p) => p@.push('\n'),
        None => Seq::empty(),
    }
    &&& match output.config {
        Some(c) => exists|d: GeneratorOptions| is_default_options(d) && #[trigger] merged(r.base_options, d, c),
        None => is_default_options(r.base_options),
    }
    &&& match output.generators {
        Some(gens) => {
            &&& r.generators@.len() == gens@.len()
            &&& forall|i: int|
                0 <= i < gens@.len() ==> planned(#[trigger] r.generators@[i], gens@[i], r.base_options)
        },
        None => {
            &&& r.generators@.len() == 2
            &&& forall|i: int|
                0 <= i < 2 ==> (#[trigger] r.generators@[i]).name@ == default_generator_names()[i]
                    && same_options(r.generators@[i].options, r.base_options)
        },
    }
}

/// Plans the generators of one output file.
pub fn plan_generators(generators: &Vec<GeneratorConfig>, base: &GeneratorOptions) -> (r: Vec<GeneratorPlan>)
    ensures
        r@.len() == generators@.len(),
        forall|i: int| 0 <= i < generators@.len() ==> planned(#[trigger] r@[i], generators@[i], *base),
{
    let mut r: Vec<GeneratorPlan> = Vec::new();
    let mut i: usize = 0;
    while i < generators.len()
        invariant
            i <= generators@.len(),
            r@.len() == i,
            forall|j: int| 0 <= j < i ==> planned(#[trigger] r@[j], generators@[j], *base),
        decreases generators@.len() - i,
    {
        let g = &generators[i];
        let name = to_owned_string(g.name());
        let options = merge_options(base, g.options());
        r.push(GeneratorPlan { name, options });
        i = i + 1;
    }
    r
}

/// Plans one output file.
pub fn plan_output(path: &str, output: &OutputConfig) -> (r: OutputPlan)
    ensures
        is_output_plan(r, path@, *output),
{
    let mut prelude = String::new();
    match &output.prelude {
        Some(p) => {
            push_str(&mut prelude, p.as_str());
            push_char(&mut prelude, '\n');
        },
        None => {},
    }
    let defaults = GeneratorOptions::default();
    let base_options = match &output.config {
        Some(c) => merge_options(&defaults, Some(c)),
        None => defaults,
    };
    let generators = match &output.generators {
        Some(gens) => plan_generators(gens, &base_options),
        None => {
            let gens = default_generators();
            plan_generators(&gens, &base_options)
        },
    };
    let r = OutputPlan { path: to_owned_string(path), prelude, base_options, generators };
    proof {
        if output.prelude is Some {
            assert(r.prelude@ =~= output.prelude->0@.push('\n'));
        }
    }
    r
}

// ── Cached generation ──────────────────────────────────────────────────────

/// Where a cached generation stands: what it waits for.
#[derive(Debug, Clone, Copy, PartialEq, Eq, Structural)]
pub enum CachedState {
    /// Waiting for the metadata check of the input files (phase 1).
    CheckingMetadata,
    /// Waiting for the schema and documents to be loaded.
    Loading,
    /// Waiting for the content hashes to be compared (phase 2).
    CheckingHashes,
    /// Waiting for generation to end.
    Generating,
    /// Finished.
    Done,
}

/// What the caller reports after performing the last action.
#[derive(Debug, Clone, Copy, PartialEq, Eq, Structural)]
pub enum CachedEvent {
    /// The metadata check ended with this result.
    MetadataChecked(MetadataCheckResult),
    /// The schema and documents were loaded.
    InputsLoaded,
    /// The schema (or a document) could not be loaded or is invalid.
    SchemaFailed,
    /// The computed hashes were compared with the recorded ones: whether
    /// they are equal.
    HashesChecked(bool),
    /// Generation produced the outputs.
    GenerationSucceeded,
    /// Generation failed.
    GenerationFailed,
}

/// What the caller does next.
#[derive(Debug, Clone, Copy, PartialEq, Eq, Structural)]
pub enum CachedAction {
    /// Check the metadata of the input files.
    CheckMetadata,
    /// Load the schema and documents.
    Load,
    /// Hash the loaded inputs and compare with the recorded hashes.
    CheckHashes,
    /// Generate the outputs.
    Generate,
    /// Nothing changed: report that the outputs are fresh.
    ReturnFresh,
    /// The content did not change: record the new cache data, report fresh.
    StoreAndReturnFresh,
    /// Record the new cache data, report what was generated.
    StoreAndReturnGenerated,
    /// Report the error; the cache is left as it was.
    ReturnError,
}

/// The state a cached generation starts in, and its first action.
pub open spec fn cached_start_spec() -> (CachedState, CachedAction) {
    (CachedState::CheckingMetadata, CachedAction::CheckMetadata)
}

/// One step of cached generation: the two-phase check (metadata, then the
/// content hashes), then generation; the cache is recorded only after a
/// successful generation or when the content turned out unchanged. An event
/// that the state does not wait for ends the run with an error.
pub open spec fn cached_step_spec(state: CachedState, event: CachedEvent) -> (CachedState, CachedAction) {
    match (state, event) {
        (CachedState::CheckingMetadata, CachedEvent::MetadataChecked(m)) => if m
            == MetadataCheckResult::AllMatch {
            (CachedState::Done, CachedAction::ReturnFresh)
        } else {
            (CachedState::Loading, CachedAction::Load)
        },
        (CachedState::Loading, CachedEvent::InputsLoaded) => (CachedState::CheckingHashes, CachedAction::CheckHashes),
        (CachedState::Loading, CachedEvent::SchemaFailed) => (CachedState::Done, CachedAction::ReturnError),
        (CachedState::CheckingHashes, CachedEvent::HashesChecked(fresh)) => if fresh {
            (CachedState::Done, CachedAction::StoreAndReturnFresh)
        } else {
            (CachedState::Generating, CachedAction::Generate)
        },
        (CachedState::Generating, CachedEvent::GenerationSucceeded) => (
            CachedState::Done,
            CachedAction::StoreAndReturnGenerated,
        ),
        (CachedState::Generating, CachedEvent::GenerationFailed) => (CachedState::Done, CachedAction::ReturnError),
        _ => (CachedState::Done, CachedAction::ReturnError),
    }
}

/// Whether an action records the cache.
pub open spec fn stores(a: CachedAction) -> bool {
    a == CachedAction::StoreAndReturnFresh || a == CachedAction::StoreAndReturnGenerated
}

/// The state a cached generation starts in, and its first action.
pub fn cached_start() -> (r: (CachedState, CachedAction))
    ensures
        r == cached_start_spec(),
{
    (CachedState::CheckingMetadata, CachedAction::CheckMetadata)
}

/// The next state and action of a cached generation, given the event that
/// the last action produced.
pub fn cached_step(state: CachedState, event: CachedEvent) -> (r: (CachedState, CachedAction))
    ensures
        r == cached_step_spec(state, event),
        stores(r.1) ==> event == CachedEvent::GenerationSucceeded || event == CachedEvent::HashesChecked(true),
        event == CachedEvent::SchemaFailed || event == CachedEvent::GenerationFailed ==> !stores(r.1),
{
    match (state, event) {
        (CachedState::CheckingMetadata, CachedEvent::MetadataChecked(m)) => match m {
            MetadataCheckResult::AllMatch => (CachedState::Done, CachedAction::ReturnFresh),
            _ => (CachedState::Loading, CachedAction::Load),
        },
        (CachedState::Loading, CachedEvent::InputsLoaded) => (CachedState::CheckingHashes, CachedAction::CheckHashes),
        (CachedState::Loading, CachedEvent::SchemaFailed) => (CachedState::Done, CachedAction::ReturnError),
        (CachedState::CheckingHashes, CachedEvent::HashesChecked(fresh)) => if fresh {
            (CachedState::Done, CachedAction::StoreAndReturnFresh)
        } else {
            (CachedState::Generating, CachedAction::Generate)
        },
        (CachedState::Generating, CachedEvent::GenerationSucceeded) => (
            CachedState::Done,
            CachedAction::StoreAndReturnGenerated,
        ),
        (CachedState::Generating, CachedEvent::GenerationFailed) => (CachedState::Done, CachedAction::ReturnError),
        _ => (CachedState::Done, CachedAction::ReturnError),
    }
}

/// The states and actions of a run that starts fresh and receives `events`
/// in turn.
pub open spec fn cached_run(events: Seq<CachedEvent>) -> (CachedState, CachedAction)
    decreases events.len(),
{
    if events.len() == 0 {
        cached_start_spec()
    } else {
        cached_step_spec(cached_run(events.drop_last()).0, events.last())
    }
}

/// Whether the first event is a metadata check that found a change.
pub open spec fn metadata_changed(e: CachedEvent) -> bool {
    e matches CachedEvent::MetadataChecked(m) && m != MetadataCheckResult::AllMatch
}

proof fn lemma_run_states(events: Seq<CachedEvent>)
    ensures
        (cached_run(events).0 == CachedState::CheckingMetadata) <==> events.len() == 0,
        (cached_run(events).0 == CachedState::Loading) <==> (events.len() == 1 && metadata_changed(
            events[0],
        )),
        (cached_run(events).0 == CachedState::CheckingHashes) <==> (events.len() == 2 && metadata_changed(
            events[0],
        ) && events[1] == CachedEvent::InputsLoaded),
        (cached_run(events).0 == CachedState::Generating) <==> (events.len() == 3 && metadata_changed(
            events[0],
        ) && events[1] == CachedEvent::InputsLoaded && events[2] == CachedEvent::HashesChecked(false)),
        (cached_run(events).1 == CachedAction::Generate) <==> (cached_run(events).0 == CachedState::Generating),
        (cached_run(events).1 == CachedAction::StoreAndReturnGenerated) <==> (events.len() > 0 && cached_run(
            events.drop_last(),
        ).0 == CachedState::Generating && events.last() == CachedEvent::GenerationSucceeded),
    decreases events.len(),
{
    if events.len() > 0 {
        let p = events.drop_last();
        lemma_run_states(p);
        if p.len() > 0 {
            assert(p[0] == events[0]);
        }
        if p.len() > 1 {
            assert(p[1] == events[1]);
        }
    }
}

/// The two-phase check: a run generates only after a metadata check that
/// found a change, a load, and a hash comparison that found a change, in
/// that order; it records the generated outputs only when generation then
/// succeeded; and a run that records the cache has ended, never on a
/// failure.
pub proof fn law_cached_generation_phases(events: Seq<CachedEvent>)
    ensures
        (cached_run(events).1 == CachedAction::Generate) <==> (events.len() == 3 && metadata_changed(events[0])
            && events[1] == CachedEvent::InputsLoaded && events[2] == CachedEvent::HashesChecked(false)),
        (cached_run(events).1 == CachedAction::StoreAndReturnGenerated) <==> (events.len() == 4
            && metadata_changed(events[0]) && events[1] == CachedEvent::InputsLoaded && events[2]
            == CachedEvent::HashesChecked(false) && events[3] == CachedEvent::GenerationSucceeded),
        stores(cached_run(events).1) ==> cached_run(events).0 == CachedState::Done,
        events.len() > 0 && (events.last() == CachedEvent::SchemaFailed || events.last()
            == CachedEvent::GenerationFailed) ==> !stores(cached_run(events).1),
{
    lemma_run_states(events);
    if events.len() > 0 {
        let p = events.drop_last();
        lemma_run_states(p);
        if p.len() > 0 {
            assert(p[0] == events[0]);
        }
        if p.len() > 1 {
            assert(p[1] == events[1]);
        }
        if p.len() > 2 {
            assert(p[2] == events[2]);
        }
    }
}

/// The files whose metadata the cache checks: the schema files, then the
/// documents.
pub fn cache_input_paths(schema_paths: &Vec<String>, document_paths: &Vec<String>) -> (r: Vec<String>)
    ensures
        r@.map_values(|s: String| s@) == schema_paths@.map_values(|s: String| s@) + document_paths@.map_values(
            |s: String| s@,
        ),
{
    let mut r: Vec<String> = Vec::new();
    let mut i: usize = 0;
    while i < schema_paths.len()
        invariant
            i <= schema_paths@.len(),
            r@.map_values(|s: String| s@) == schema_paths@.subrange(0, i as int).map_values(|s: String| s@),
        decreases schema_paths@.len() - i,
    {
        let ghost before = r@;
        let p = schema_paths[i].clone();
        r.push(p);
        proof {
            assert(r@.map_values(|s: String| s@) =~= before.map_values(|s: String| s@).push(
                schema_paths@[i as int]@,
            ));
            assert(schema_paths@.subrange(0, i + 1).map_values(|s: String| s@) =~= schema_paths@.subrange(
                0,
                i as int,
            ).map_values(|s: String| s@).push(schema_paths@[i as int]@));
        }
        i = i + 1;
    }
    let mut j: usize = 0;
    while j < document_paths.len()
        invariant
            i == schema_paths@.len(),
            j <= document_paths@.len(),
            r@.map_values(|s: String| s@) == schema_paths@.map_values(|s: String| s@)
                + document_paths@.subrange(0, j as int).map_values(|s: String| s@),
        decreases document_paths@.len() - j,
    {
        let ghost before = r@;
        let p = document_paths[j].clone();
        r.push(p);
        proof {
            assert(r@.map_values(|s: String| s@) =~= before.map_values(|s: String| s@).push(
                document_paths@[j as int]@,
            ));
            assert(document_paths@.subrange(0, j + 1).map_values(|s: String| s@) =~= document_paths@.subrange(
                0,
                j as int,
            ).map_values(|s: String| s@).push(document_paths@[j as int]@));
            assert(r@.map_values(|s: String| s@) =~= schema_paths@.map_values(|s: String| s@)
                + document_paths@.subrange(0, j + 1).map_values(|s: String| s@));
        }
        j = j + 1;
    }
    proof {
        assert(schema_paths@.subrange(0, i as int) =~= schema_paths@);
        assert(document_paths@.subrange(0, j as int) =~= document_paths@);
    }
    r
}

} // verus!
