//! Checking the GraphQL schema that generation reads.
//!
//! The schema's sources (path and text of each file, in order) are parsed
//! into one schema by `apollo-compiler`, which is then built and validated;
//! what it reports becomes schema errors of the library's own diagnostics.
use vstd::prelude::*;

use apollo_compiler::schema::SchemaBuilder;
use apollo_compiler::validation::DiagnosticList;

use crate::diagnostic::apollo::{diagnostic_list_items, reports_all, ReportedView};
use crate::diagnostic::{DiagnosticCategory, Diagnostics, Severity};

verus! {

#[verifier::external_type_specification]
#[verifier::external_body]
pub struct ExSchemaBuilder(SchemaBuilder);

/// The sources added to a schema builder, in order: path and text of each.
pub uninterp spec fn builder_sources(b: SchemaBuilder) -> Seq<(Seq<char>, Seq<char>)>;

/// The errors that building and then validating a schema from these
/// sources reports, in order.
pub uninterp spec fn schema_errors(sources: Seq<(Seq<char>, Seq<char>)>) -> Seq<ReportedView>;

/// Calls `Schema::builder`, a builder that holds only the built-in
/// definitions. Claimed: no source has been added to it.
#[verifier::external_body]
fn schema_builder() -> (r: SchemaBuilder)
    ensures
        builder_sources(r) == Seq::<(Seq<char>, Seq<char>)>::empty(),
{
    apollo_compiler::Schema::builder()
}

/// Calls `SchemaBuilder::parse`. Claimed: the source is added after those
/// the builder had.
#[verifier::external_body]
fn builder_parse(b: SchemaBuilder, text: &str, path: &str) -> (r: SchemaBuilder)
    ensures
        builder_sources(r) == builder_sources(b).push((path@, text@)),
{
    b.parse(text, path)
}

/// Calls `SchemaBuilder::build` and then, on the schema it built,
/// `Schema::validate`; keeps the errors of the step that failed. Claimed:
/// nothing is returned exactly when neither step reported an error, and the
/// list returned holds the errors named for the builder's sources.
#[verifier::external_body]
fn build_and_validate(b: SchemaBuilder) -> (r: Option<DiagnosticList>)
    ensures
        match r {
            None => schema_errors(builder_sources(b)).len() == 0,
            Some(list) => diagnostic_list_items(list) == schema_errors(builder_sources(b)),
        },
{
    match b.build().map(|s| s.validate()) {
        Ok(Ok(_)) => None,
        Ok(Err(e)) | Err(e) => Some(e.errors),
    }
}

/// The sources as plain values: path and text of each.
pub open spec fn source_views(files: Seq<(String, String)>) -> Seq<(Seq<char>, Seq<char>)> {
    files.map_values(|f: (String, String)| (f.0@, f.1@))
}

/// Builds and validates the schema of the given sources (path and text of
/// each, in order): the diagnostics that report its errors, as schema
/// errors; none when the schema is valid.
pub fn validate_schema(files: &Vec<(String, String)>) -> (r: Diagnostics)
    ensures
        reports_all(r.0@, schema_errors(source_views(files@)), Severity::Error, DiagnosticCategory::Schema),
{
    let mut b = schema_builder();
    let mut i: usize = 0;
    while i < files.len()
        invariant
            i <= files@.len(),
            builder_sources(b) == source_views(files@.take(i as int)),
        decreases files@.len() - i,
    {
        b = builder_parse(b, files[i].1.as_str(), files[i].0.as_str());
        proof {
            assert(source_views(files@.take(i + 1)) =~= source_views(files@.take(i as int)).push(
                (files@[i as int].0@, files@[i as int].1@),
            ));
        }
        i = i + 1;
    }
    proof {
        assert(files@.take(i as int) =~= files@);
    }
    match build_and_validate(b) {
        None => Diagnostics::new(),
        Some(list) => Diagnostics::from_apollo(&list, Severity::Error, DiagnosticCategory::Schema),
    }
}

} // verus!
