//! TypeScript rendering of schema and operation types.
use vstd::prelude::*;

use crate::documents::{join, join_spec};
use crate::text::{push_str, to_owned_string};

verus! {

/// `export type {name} = {A} | {B};` followed by an empty line.
pub open spec fn union_definition_text(name: Seq<char>, members: Seq<Seq<char>>) -> Seq<char> {
    "export type "@ + name + " = "@ + join_spec(members, " | "@) + ";\n\n"@
}

/// Renders a union type as the TypeScript union of its members' names.
pub fn render_union_definition(name: &str, members: &Vec<String>) -> (r: String)
    ensures
        r@ == union_definition_text(name@, members@.map_values(|m: String| m@)),
{
    let mut refs: Vec<&str> = Vec::new();
    let mut i: usize = 0;
    while i < members.len()
        invariant
            i <= members@.len(),
            refs@.len() == i,
            forall|k: int| 0 <= k < i ==> (#[trigger] refs@[k])@ == members@[k]@,
        decreases members@.len() - i,
    {
        refs.push(members[i].as_str());
        i = i + 1;
    }
    proof {
        assert(refs@.map_values(|s: &str| s@) =~= members@.map_values(|m: String| m@));
    }
    let mut output = to_owned_string("export type ");
    push_str(&mut output, name);
    push_str(&mut output, " = ");
    let joined = join(&refs, " | ");
    push_str(&mut output, joined.as_str());
    push_str(&mut output, ";\n\n");
    proof {
        assert(output@ =~= union_definition_text(name@, members@.map_values(|m: String| m@)));
    }
    output
}

/// A field of an input object type: its name, its type as rendered in
/// TypeScript, and its description as a rendered comment, when it has one.
#[derive(Debug, Clone)]
pub struct InputField {
    pub name: String,
    pub rendered_type: String,
    pub description: Option<String>,
}

/// The text of an optional part, empty when there is none.
pub open spec fn text_of(o: Option<String>) -> Seq<char> {
    match o {
        Some(s) => s@,
        None => Seq::empty(),
    }
}

/// The lines of the fields, in order: each one's description comment, then
/// `  {name}: {type};`.
pub open spec fn input_fields_text(fields: Seq<InputField>) -> Seq<char>
    decreases fields.len(),
{
    if fields.len() == 0 {
        Seq::empty()
    } else {
        let f = fields.last();
        input_fields_text(fields.drop_last()) + text_of(f.description) + "  "@ + f.name@ + ": "@
            + f.rendered_type@ + ";\n"@
    }
}

/// The description comment, then `export type {name} = {`, the optional
/// `__typename` field, the fields, and `};` followed by an empty line.
pub open spec fn input_object_text(name: Seq<char>, description: Option<String>, fields: Seq<InputField>) -> Seq<
    char,
> {
    text_of(description) + "export type "@ + name + " = {\n"@ + "  __typename?: '"@ + name + "';\n"@
        + input_fields_text(fields) + "};\n\n"@
}

/// Renders an input object type as a TypeScript object type, given its name,
/// its description comment (when it has a description) and its fields.
pub fn render_input_object_definition(name: &str, description: &Option<String>, fields: &Vec<InputField>) -> (r:
    String)
    ensures
        r@ == input_object_text(name@, *description, fields@),
{
    let mut output = String::new();
    match description {
        Some(d) => push_str(&mut output, d.as_str()),
        None => {},
    }
    push_str(&mut output, "export type ");
    push_str(&mut output, name);
    push_str(&mut output, " = {\n");
    push_str(&mut output, "  __typename?: '");
    push_str(&mut output, name);
    push_str(&mut output, "';\n");
    let ghost head = output@;
    let mut i: usize = 0;
    while i < fields.len()
        invariant
            i <= fields@.len(),
            output@ == head + input_fields_text(fields@.subrange(0, i as int)),
        decreases fields@.len() - i,
    {
        let f = &fields[i];
        match &f.description {
            Some(d) => push_str(&mut output, d.as_str()),
            None => {},
        }
        push_str(&mut output, "  ");
        push_str(&mut output, f.name.as_str());
        push_str(&mut output, ": ");
        push_str(&mut output, f.rendered_type.as_str());
        push_str(&mut output, ";\n");
        proof {
            let prefix = fields@.subrange(0, i + 1);
            assert(prefix.drop_last() =~= fields@.subrange(0, i as int));
            assert(output@ =~= head + input_fields_text(prefix));
        }
        i = i + 1;
    }
    push_str(&mut output, "};\n\n");
    proof {
        assert(fields@.subrange(0, i as int) =~= fields@);
        assert(output@ =~= input_object_text(name@, *description, fields@));
    }
    output
}

/// Generates the TypeScript types of operations.
#[derive(Debug, Clone, Copy)]
pub struct TsOperationsTypeGenerator;

/// `export type {name} = {` then the rendered tree, then `};` and an empty line.
pub open spec fn operation_type_text(name: Seq<char>, tree: Seq<char>) -> Seq<char> {
    "export type "@ + name + " = {\n"@ + tree + "\n};\n\n"@
}

/// The types of the operations, one after the other.
pub open spec fn operation_types_text(ops: Seq<(String, String)>) -> Seq<char>
    decreases ops.len(),
{
    if ops.len() == 0 {
        Seq::empty()
    } else {
        operation_types_text(ops.drop_last()) + operation_type_text(ops.last().0@, ops.last().1@)
    }
}

impl TsOperationsTypeGenerator {
    /// Renders the type of each operation, given its name and its rendered
    /// selection tree.
    pub fn generate(&self, operations: &Vec<(String, String)>) -> (r: String)
        ensures
            r@ == operation_types_text(operations@),
    {
        let mut result = String::new();
        let mut i: usize = 0;
        while i < operations.len()
            invariant
                i <= operations@.len(),
                result@ == operation_types_text(operations@.subrange(0, i as int)),
            decreases operations@.len() - i,
        {
            let ghost before = result@;
            push_str(&mut result, "export type ");
            push_str(&mut result, operations[i].0.as_str());
            push_str(&mut result, " = {\n");
            push_str(&mut result, operations[i].1.as_str());
            push_str(&mut result, "\n};\n\n");
            proof {
                let prefix = operations@.subrange(0, i + 1);
                assert(prefix.drop_last() =~= operations@.subrange(0, i as int));
                assert(result@ =~= operation_types_text(prefix));
            }
            i = i + 1;
        }
        proof {
            assert(operations@.subrange(0, i as int) =~= operations@);
        }
        result
    }
}

} // verus!
