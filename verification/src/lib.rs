//! Verified core of a GraphQL code generator: naming-case transforms,
//! zero-copy GraphQL extraction from JavaScript/TypeScript sources,
//! diagnostics, configuration resolution and caching decisions.
use vstd::prelude::*;

pub mod cache;
pub mod casing;
pub mod cli;
pub mod codegen;
pub mod config;
pub mod diagnostic;
pub mod documents;
pub mod extract;
pub mod fs;
pub mod generator;
pub mod glob_cache;
pub mod globs;
pub mod paths;
pub mod scanner;
pub mod schema;
pub mod text;
pub mod visitor;

verus! {

} // verus!
