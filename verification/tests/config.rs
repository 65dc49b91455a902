use std::collections::BTreeMap;

use gql_codegen_core::codegen::{
    cache_input_paths, cached_start, cached_step, default_generators, merge_options, plan_output,
    serde_field_defaults, CachedAction, CachedEvent, CachedState,
};
use gql_codegen_core::cache::MetadataCheckResult;
use gql_codegen_core::config::{
    AvoidOptionals, AvoidOptionalsConfig, DeclarationKind, GeneratorConfig, GeneratorOptions,
    GraphqlTag, HooksConfig, OutputConfig, ScalarConfig, StringOrArray, TypenamePolicy,
};

#[test]
fn default_generator_options_are_sgc_defaults() {
    let opts = GeneratorOptions::default();
    assert_eq!(opts.declaration_kind, Some(DeclarationKind::Interface));
    assert_eq!(opts.immutable_types, Some(true));
    assert_eq!(opts.enums_as_types, Some(true));
    assert_eq!(opts.future_proof_enums, Some(true));
    assert_eq!(opts.future_proof_unions, Some(true));
    assert_eq!(opts.default_scalar_type, Some("unknown".to_string()));
    assert_eq!(opts.typename_policy, Some(TypenamePolicy::Always));
}

#[test]
fn config_string_or_array() {
    let one = StringOrArray::Single("a.graphql".to_string());
    assert_eq!(one.as_vec(), vec!["a.graphql"]);
    assert_eq!(one.into_vec(), vec!["a.graphql".to_string()]);
    let many = StringOrArray::Multiple(vec!["x".to_string(), "y".to_string()]);
    assert_eq!(many.as_vec(), vec!["x", "y"]);
    assert_eq!(many.into_vec(), vec!["x".to_string(), "y".to_string()]);
}

#[test]
fn config_generator_name_and_options() {
    let named = GeneratorConfig::Name("schema-types".to_string());
    assert_eq!(named.name(), "schema-types");
    assert!(named.options().is_none());
    let mut opts = serde_field_defaults();
    opts.scalars.insert("DateTime".to_string(), ScalarConfig::Simple("string".to_string()));
    let with = GeneratorConfig::WithConfig(vec![("operation-types".to_string(), opts)]);
    assert_eq!(with.name(), "operation-types");
    assert!(with.options().unwrap().scalars.contains_key("DateTime"));
    let empty = GeneratorConfig::WithConfig(vec![]);
    assert_eq!(empty.name(), "");
    assert!(empty.options().is_none());
}

#[test]
fn config_avoid_optionals_normalize() {
    let all = AvoidOptionals::Boolean(true).normalize();
    assert!(all.field && all.object && all.input_value && all.default_value);
    assert!(!AvoidOptionals::default().normalize().field);
    let c = AvoidOptionalsConfig::new(Some(true), None, Some(false), Some(true), None, None, None, None);
    let n = AvoidOptionals::Complex(c).normalize();
    assert!(n.field);
    assert!(!n.object);
    assert!(!n.input_value);
    assert!(n.default_value);
}

#[test]
fn config_scalar_normalize() {
    let s = ScalarConfig::Simple("string".to_string()).normalize();
    assert_eq!(s.input, "string");
    assert_eq!(s.output, "string");
    let d = ScalarConfig::Detailed { input: "Date".to_string(), output: "string".to_string() }.normalize();
    assert_eq!(d.input, "Date");
    assert_eq!(d.output, "string");
}

#[test]
fn config_resolved_getters() {
    let unset = serde_field_defaults();
    assert_eq!(unset.resolved_typename_policy(), TypenamePolicy::Always);
    assert!(unset.immutable_types());
    assert!(unset.future_proof_enums());
    assert!(unset.future_proof_unions());
    let mut set = serde_field_defaults();
    set.typename_policy = Some(TypenamePolicy::Skip);
    set.immutable_types = Some(false);
    set.future_proof_enums = Some(false);
    set.future_proof_unions = Some(false);
    assert_eq!(set.resolved_typename_policy(), TypenamePolicy::Skip);
    assert!(!set.immutable_types());
    assert!(!set.future_proof_enums());
    assert!(!set.future_proof_unions());
}

#[test]
fn config_enum_defaults() {
    assert_eq!(TypenamePolicy::default(), TypenamePolicy::Always);
    assert_eq!(DeclarationKind::default(), DeclarationKind::Type);
    assert_eq!(GraphqlTag::default(), GraphqlTag::Gql);
    assert!(HooksConfig::default().after_generate.is_empty());
}

#[test]
fn merge_unset_changes_nothing() {
    let base = GeneratorOptions::default();
    let merged = merge_options(&base, Some(&serde_field_defaults()));
    assert_eq!(merged, base);
    assert_eq!(merge_options(&base, None), base);
}

#[test]
fn merge_set_fields_win() {
    let base = GeneratorOptions::default();
    let mut g = serde_field_defaults();
    g.immutable_types = Some(false);
    g.type_name_prefix = Some("I".to_string());
    g.strict_scalars = true;
    g.only_referenced_types = true;
    g.scalars.insert("DateTime".to_string(), ScalarConfig::Simple("string".to_string()));
    let merged = merge_options(&base, Some(&g));
    assert_eq!(merged.immutable_types, Some(false));
    assert_eq!(merged.type_name_prefix, Some("I".to_string()));
    assert!(merged.strict_scalars);
    // A flag set by the generator wins, as every other set field does.
    assert!(merged.only_referenced_types);
    assert!(merged.scalars.contains_key("DateTime"));
    // Untouched fields keep the base's values.
    assert_eq!(merged.declaration_kind, Some(DeclarationKind::Interface));
    assert_eq!(merged.default_scalar_type, Some("unknown".to_string()));
    // Merging the same overrides again changes nothing.
    assert_eq!(merge_options(&merged, Some(&g)), merged);
}

#[test]
fn plan_output_defaults() {
    let output = OutputConfig { generators: None, prelude: Some("/* eslint-disable */".to_string()), config: None };
    let plan = plan_output("out/types.ts", &output);
    assert_eq!(plan.path, "out/types.ts");
    assert_eq!(plan.prelude, "/* eslint-disable */\n");
    assert_eq!(plan.base_options, GeneratorOptions::default());
    let names: Vec<&str> = plan.generators.iter().map(|g| g.name.as_str()).collect();
    assert_eq!(names, vec!["schema-types", "operation-types"]);
    assert_eq!(default_generators().len(), 2);
}

#[test]
fn plan_output_layers_options() {
    let mut shared = serde_field_defaults();
    shared.enums_as_types = Some(false);
    let mut own = serde_field_defaults();
    own.type_name_suffix = Some("Type".to_string());
    let output = OutputConfig {
        generators: Some(vec![
            GeneratorConfig::Name("schema-types".to_string()),
            GeneratorConfig::WithConfig(vec![("operation-types".to_string(), own)]),
        ]),
        prelude: None,
        config: Some(shared),
    };
    let plan = plan_output("o.ts", &output);
    assert_eq!(plan.prelude, "");
    assert_eq!(plan.base_options.enums_as_types, Some(false));
    assert_eq!(plan.base_options.immutable_types, Some(true));
    assert_eq!(plan.generators.len(), 2);
    assert_eq!(plan.generators[0].options, plan.base_options);
    assert_eq!(plan.generators[1].options.type_name_suffix, Some("Type".to_string()));
    assert_eq!(plan.generators[1].options.enums_as_types, Some(false));
}

#[test]
fn cached_generation_steps() {
    use_steps();
    let all = cache_input_paths(&vec!["s.graphql".to_string()], &vec!["a.ts".to_string(), "b.ts".to_string()]);
    assert_eq!(all, vec!["s.graphql", "a.ts", "b.ts"]);
    let _ = BTreeMap::<String, ScalarConfig>::new();
}

fn use_steps() {
    let (s0, a0) = cached_start();
    assert_eq!((s0, a0), (CachedState::CheckingMetadata, CachedAction::CheckMetadata));
    // Phase 1: unchanged metadata means fresh, without loading.
    assert_eq!(
        cached_step(s0, CachedEvent::MetadataChecked(MetadataCheckResult::AllMatch)),
        (CachedState::Done, CachedAction::ReturnFresh)
    );
    let (s1, a1) = cached_step(s0, CachedEvent::MetadataChecked(MetadataCheckResult::Changed));
    assert_eq!((s1, a1), (CachedState::Loading, CachedAction::Load));
    assert_eq!(
        cached_step(s0, CachedEvent::MetadataChecked(MetadataCheckResult::NoPrevious)).1,
        CachedAction::Load
    );
    // A schema error ends the run without recording anything.
    assert_eq!(cached_step(s1, CachedEvent::SchemaFailed), (CachedState::Done, CachedAction::ReturnError));
    let (s2, a2) = cached_step(s1, CachedEvent::InputsLoaded);
    assert_eq!((s2, a2), (CachedState::CheckingHashes, CachedAction::CheckHashes));
    // Phase 2: equal hashes record the new metadata and report fresh.
    assert_eq!(cached_step(s2, CachedEvent::HashesChecked(true)), (CachedState::Done, CachedAction::StoreAndReturnFresh));
    let (s3, a3) = cached_step(s2, CachedEvent::HashesChecked(false));
    assert_eq!((s3, a3), (CachedState::Generating, CachedAction::Generate));
    assert_eq!(
        cached_step(s3, CachedEvent::GenerationSucceeded),
        (CachedState::Done, CachedAction::StoreAndReturnGenerated)
    );
    assert_eq!(cached_step(s3, CachedEvent::GenerationFailed), (CachedState::Done, CachedAction::ReturnError));
    // An event out of turn is an error.
    assert_eq!(cached_step(s0, CachedEvent::GenerationSucceeded), (CachedState::Done, CachedAction::ReturnError));
}
