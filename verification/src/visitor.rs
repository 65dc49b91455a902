//! Finding GraphQL in a JavaScript syntax tree: calls and tagged templates
//! whose callee or tag is `graphql` or `gql`.
use vstd::prelude::*;

use crate::text::str_eq;

verus! {

/// Visits call expressions and tagged template expressions.
#[derive(Debug, Clone, Copy)]
pub struct JSVisitor;

impl Default for JSVisitor {
    fn default() -> (r: Self) {
        JSVisitor
    }
}

/// Whether an identifier is one of the GraphQL tags.
pub open spec fn is_graphql_tag(name: Seq<char>) -> bool {
    name == "graphql"@ || name == "gql"@
}

impl JSVisitor {
    /// Whether a call whose callee is the identifier `callee` is reported.
    pub fn visit_call_expression(&self, callee: &str) -> (r: bool)
        ensures
            r == is_graphql_tag(callee@),
    {
        str_eq(callee, "graphql") || str_eq(callee, "gql")
    }

    /// The raw text to parse of a template tagged with the identifier `tag`:
    /// its only quasi, when the tag is a GraphQL tag.
    ///
    /// A GraphQL template must have no expressions and a single quasi.
    pub fn visit_tagged_template_expression<'a>(
        &self,
        tag: &str,
        quasis: &'a Vec<String>,
        expression_count: usize,
    ) -> (r: Option<&'a str>)
        requires
            is_graphql_tag(tag@) ==> expression_count == 0 && quasis@.len() == 1,
        ensures
            is_graphql_tag(tag@) ==> (r matches Some(raw) && raw@ == quasis@[0]@),
            !is_graphql_tag(tag@) ==> r is None,
    {
        if !self.visit_call_expression(tag) {
            return None;
        }
        Some(quasis[0].as_str())
    }
}

} // verus!
