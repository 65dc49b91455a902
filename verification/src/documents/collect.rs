//! Collecting the operations and fragments of the loaded documents.
//!
//! Each loaded file yields documents by its extension: a GraphQL file is one
//! document, a JavaScript or TypeScript file the documents extracted from it.
//! Each document is parsed; its operations and fragments are kept under their
//! names, the first one of a name winning and later ones reported.
use vstd::prelude::*;

use vstd::string::StringSliceAdditionalSpecFns;
use vstd::utf8::{decode_utf8, encode_utf8, encode_utf8_decode_utf8, is_char_boundary};

use apollo_compiler::ast::Definition;
use apollo_compiler::parser::SourceSpan;

use crate::cli::{file_type_of, get_file_type, FileType};
use crate::diagnostic::render::decimal;
use crate::extract::{
    extract, extract_spec, lemma_extract_spec_bounds, matches_found, ExtractConfig, Extracted, Found,
    ScanConfig,
};
use crate::paths::{extension_of, or_empty, path_extension, portable_path, text_or_empty};
use crate::scanner::slice_str;
use crate::text::{push_char, push_str, to_owned_string};

verus! {

// ── Parsing (apollo-compiler) ──────────────────────────────────────────────

/// The kinds of top-level definitions that collection tells apart.
#[derive(Debug, Clone, Copy, PartialEq, Eq, Structural)]
pub enum DefinitionKind {
    Operation,
    Fragment,
    Other,
}

/// A top-level definition: its kind, its name, and the byte range of its
/// text in the document.
#[derive(Debug, Clone)]
pub struct ParsedDefinition {
    pub kind: DefinitionKind,
    pub name: Option<String>,
    pub span: Option<(usize, usize)>,
}

impl View for ParsedDefinition {
    type V = (DefinitionKind, Option<Seq<char>>, Option<(usize, usize)>);

    open spec fn view(&self) -> Self::V {
        (self.kind, match self.name {
            Some(n) => Some(n@),
            None => None,
        }, self.span)
    }
}

/// What `apollo_compiler::ast::Document::parse` gives for a text and a
/// path: the definitions, or the text of the errors.
pub uninterp spec fn graphql_parse(text: Seq<char>, path: Seq<char>) -> Result<
    Seq<(DefinitionKind, Option<Seq<char>>, Option<(usize, usize)>)>,
    Seq<char>,
>;

/// Calls `apollo_compiler::ast::Document::parse` and converts each top-level
/// definition (`Definition`'s variants, the name, `Node::location` as the
/// byte offsets of `SourceSpan`). Claimed: the definitions, or the displayed
/// errors, are the named result for the text and path.
#[verifier::external_body]
fn parse_definitions(text: &str, path: &str) -> (r: Result<Vec<ParsedDefinition>, String>)
    ensures
        match r {
            Ok(v) => graphql_parse(text@, path@) == Ok::<_, Seq<char>>(
                v@.map_values(|d: ParsedDefinition| d@),
            ),
            Err(e) => graphql_parse(text@, path@) == Err::<
                Seq<(DefinitionKind, Option<Seq<char>>, Option<(usize, usize)>)>,
                _,
            >(e@),
        },
{
    let span = |s: Option<SourceSpan>| s.map(|s| (s.offset(), s.end_offset()));
    match apollo_compiler::ast::Document::parse(text, path) {
        Ok(doc) => Ok(doc.definitions.iter().map(|def| match def {
            Definition::OperationDefinition(op) => ParsedDefinition { kind: DefinitionKind::Operation,
                name: op.name.as_ref().map(ToString::to_string), span: span(op.location()) },
            Definition::FragmentDefinition(f) => ParsedDefinition { kind: DefinitionKind::Fragment,
                name: Some(f.name.to_string()), span: span(f.location()) },
            _ => ParsedDefinition { kind: DefinitionKind::Other, name: None, span: None },
        }).collect()),
        Err(e) => Err(e.to_string()),
    }
}

// ── Documents ──────────────────────────────────────────────────────────────

/// A GraphQL document found in a loaded file.
#[derive(Debug, Clone, Copy)]
pub struct ExtractedDoc<'a> {
    /// Index of the file among the loaded sources
    pub source_idx: usize,
    pub path: &'a str,
    /// The document's text (a slice of the file's text)
    pub text: &'a str,
    pub line: usize,
    pub column: usize,
}

/// A document as plain values: the index of its file, the file's path, the
/// document's text, and the line and column where it starts.
pub type DocView = (int, Seq<char>, Seq<char>, int, int);

impl<'a> View for ExtractedDoc<'a> {
    type V = DocView;

    open spec fn view(&self) -> DocView {
        (self.source_idx as int, self.path@, self.text@, self.line as int, self.column as int)
    }
}

/// A parsed GraphQL operation with its place (zero-copy text).
#[derive(Debug, Clone, Copy)]
pub struct ParsedOperation<'a> {
    /// Index of the file among the loaded sources
    pub source_idx: usize,
    /// Slice into the file's text: the operation alone
    pub text: &'a str,
    /// Location of the document in the file
    pub line: usize,
    pub column: usize,
}

/// A parsed GraphQL fragment with its place (zero-copy text).
#[derive(Debug, Clone, Copy)]
pub struct ParsedFragment<'a> {
    pub source_idx: usize,
    pub text: &'a str,
    pub line: usize,
    pub column: usize,
}

impl<'a> ParsedOperation<'a> {
    /// The path of the file the operation comes from.
    pub fn file_path<'c>(&self, sources: &'c Vec<(String, String)>) -> (r: &'c str)
        requires
            self.source_idx < sources@.len(),
        ensures
            r@ == sources@[self.source_idx as int].0@,
    {
        sources[self.source_idx].0.as_str()
    }
}

impl<'a> ParsedFragment<'a> {
    /// The path of the file the fragment comes from.
    pub fn file_path<'c>(&self, sources: &'c Vec<(String, String)>) -> (r: &'c str)
        requires
            self.source_idx < sources@.len(),
        ensures
            r@ == sources@[self.source_idx as int].0@,
    {
        sources[self.source_idx].0.as_str()
    }
}

/// What parsing a document gives: its operations and fragments by name, or
/// a warning.
#[derive(Debug, Clone)]
pub enum ParseResult<'a> {
    Success {
        operations: Vec<(String, ParsedOperation<'a>)>,
        fragments: Vec<(String, ParsedFragment<'a>)>,
    },
    Error(String),
}

/// Whether a span selects a slice of the bytes at character boundaries.
pub open spec fn span_ok(b: Seq<u8>, span: (usize, usize)) -> bool {
    span.0 <= span.1 <= b.len() && is_char_boundary(b, span.0 as int) && is_char_boundary(
        b,
        span.1 as int,
    )
}

/// The bytes of a definition: its span when it selects a slice, else the
/// whole document.
pub open spec fn definition_bytes(b: Seq<u8>, span: Option<(usize, usize)>) -> Seq<u8> {
    match span {
        Some(s) => if span_ok(b, s) {
            b.subrange(s.0 as int, s.1 as int)
        } else {
            b
        },
        None => b,
    }
}

/// The text of a single definition, selected by its span. A span that does
/// not select a slice at character boundaries (which the parser does not
/// produce) selects the whole text.
pub fn extract_definition_text<'a>(full_text: &'a str, span: Option<(usize, usize)>) -> (r: &'a str)
    ensures
        r.spec_bytes() == definition_bytes(full_text.spec_bytes(), span),
{
    match span {
        Some((start, end)) => {
            let n = full_text.as_bytes().len();
            if start <= end && end <= n && full_text.is_char_boundary(start)
                && full_text.is_char_boundary(end) {
                slice_str(full_text, start, end)
            } else {
                full_text
            }
        },
        None => full_text,
    }
}

pub type DefView = (DefinitionKind, Option<Seq<char>>, Option<(usize, usize)>);

/// The number of unnamed operations among the first `i` definitions.
pub open spec fn anon_before(defs: Seq<DefView>, i: int) -> nat
    decreases i,
{
    if i <= 0 {
        0
    } else {
        anon_before(defs, i - 1) + if defs[i - 1].0 == DefinitionKind::Operation
            && defs[i - 1].1 is None {
            1nat
        } else {
            0nat
        }
    }
}

/// The name of the operation defined at `i`: its own, or `Anonymous_<n>` for
/// the n-th unnamed one.
pub open spec fn operation_name(defs: Seq<DefView>, i: int) -> Seq<char> {
    match defs[i].1 {
        Some(n) => n,
        None => "Anonymous_"@ + decimal(anon_before(defs, i) + 1),
    }
}

/// The positions of the definitions of a kind among the first `n`, in order.
pub open spec fn positions(defs: Seq<DefView>, kind: DefinitionKind, n: int) -> Seq<int>
    decreases n,
{
    if n <= 0 {
        Seq::empty()
    } else if defs[n - 1].0 == kind {
        positions(defs, kind, n - 1).push(n - 1)
    } else {
        positions(defs, kind, n - 1)
    }
}

/// The name of the fragment defined at `i`.
pub open spec fn fragment_name(defs: Seq<DefView>, i: int) -> Seq<char> {
    match defs[i].1 {
        Some(n) => n,
        None => Seq::empty(),
    }
}

/// The error warning of a document: `path:line: errors`.
pub open spec fn parse_warning(doc: DocView, errors: Seq<char>) -> Seq<char> {
    doc.1 + seq![':'] + decimal(doc.3 as nat) + seq![':', ' '] + errors
}

/// Whether `r` is what parsing `doc` gives.
pub open spec fn is_parse_of(r: ParseResult, doc: DocView) -> bool {
    match graphql_parse(doc.2, doc.1) {
        Err(e) => r matches ParseResult::Error(w) && w@ == parse_warning(doc, e),
        Ok(defs) => match r {
            ParseResult::Success { operations, fragments } => {
                let ops = positions(defs, DefinitionKind::Operation, defs.len() as int);
                let frs = positions(defs, DefinitionKind::Fragment, defs.len() as int);
                &&& operations@.len() == ops.len()
                &&& forall|k: int|
                    0 <= k < ops.len() ==> {
                        let (name, op) = #[trigger] operations@[k];
                        &&& name@ == operation_name(defs, ops[k])
                        &&& op.source_idx == doc.0
                        &&& op.text.spec_bytes() == definition_bytes(encode_utf8(doc.2), defs[ops[k]].2)
                        &&& op.line == doc.3
                        &&& op.column == doc.4
                    }
                &&& fragments@.len() == frs.len()
                &&& forall|k: int|
                    0 <= k < frs.len() ==> {
                        let (name, fr) = #[trigger] fragments@[k];
                        &&& name@ == fragment_name(defs, frs[k])
                        &&& fr.source_idx == doc.0
                        &&& fr.text.spec_bytes() == definition_bytes(encode_utf8(doc.2), defs[frs[k]].2)
                        &&& fr.line == doc.3
                        &&& fr.column == doc.4
                    }
            },
            ParseResult::Error(_) => false,
        },
    }
}

fn anonymous_name(n: usize) -> (r: String)
    ensures
        r@ == "Anonymous_"@ + decimal(n as nat),
{
    let mut r = to_owned_string("Anonymous_");
    let digits = crate::diagnostic::render::decimal_string(n);
    push_str(&mut r, digits.as_str());
    r
}

fn warning_text(doc: &ExtractedDoc, errors: &str) -> (r: String)
    ensures
        r@ == parse_warning(doc@, errors@),
{
    let mut w = to_owned_string(doc.path);
    push_char(&mut w, ':');
    let line = crate::diagnostic::render::decimal_string(doc.line);
    push_str(&mut w, line.as_str());
    push_char(&mut w, ':');
    push_char(&mut w, ' ');
    push_str(&mut w, errors);
    proof {
        assert(w@ =~= parse_warning(doc@, errors@));
    }
    w
}

/// Parses a document into its operations and fragments.
pub fn parse_document<'a>(doc: &ExtractedDoc<'a>) -> (r: ParseResult<'a>)
    ensures
        is_parse_of(r, doc@),
{
    let defs = match parse_definitions(doc.text, doc.path) {
        Ok(defs) => defs,
        Err(e) => {
            return ParseResult::Error(warning_text(doc, e.as_str()));
        },
    };
    let ghost dv = defs@.map_values(|d: ParsedDefinition| d@);
    let mut operations: Vec<(String, ParsedOperation<'a>)> = Vec::new();
    let mut fragments: Vec<(String, ParsedFragment<'a>)> = Vec::new();
    let mut anon_count: usize = 0;
    let mut i: usize = 0;
    while i < defs.len()
        invariant
            graphql_parse(doc.text@, doc.path@) == Ok::<_, Seq<char>>(dv),
            dv == defs@.map_values(|d: ParsedDefinition| d@),
            i <= defs@.len(),
            anon_count == anon_before(dv, i as int),
            anon_count <= i,
            operations@.len() == positions(dv, DefinitionKind::Operation, i as int).len(),
            forall|k: int|
                0 <= k < operations@.len() ==> {
                    let (name, op) = #[trigger] operations@[k];
                    let p = positions(dv, DefinitionKind::Operation, i as int)[k];
                    &&& name@ == operation_name(dv, p)
                    &&& op.source_idx == doc.source_idx
                    &&& op.text.spec_bytes() == definition_bytes(doc.text.spec_bytes(), dv[p].2)
                    &&& op.line == doc.line
                    &&& op.column == doc.column
                },
            fragments@.len() == positions(dv, DefinitionKind::Fragment, i as int).len(),
            forall|k: int|
                0 <= k < fragments@.len() ==> {
                    let (name, fr) = #[trigger] fragments@[k];
                    let p = positions(dv, DefinitionKind::Fragment, i as int)[k];
                    &&& name@ == fragment_name(dv, p)
                    &&& fr.source_idx == doc.source_idx
                    &&& fr.text.spec_bytes() == definition_bytes(doc.text.spec_bytes(), dv[p].2)
                    &&& fr.line == doc.line
                    &&& fr.column == doc.column
                },
        decreases defs@.len() - i,
    {
        let def = &defs[i];
        assert(dv[i as int] == def@);
        let ghost ops_before = positions(dv, DefinitionKind::Operation, i as int);
        let ghost frs_before = positions(dv, DefinitionKind::Fragment, i as int);
        match def.kind {
            DefinitionKind::Operation => {
                let name = match &def.name {
                    Some(n) => n.clone(),
                    None => {
                        anon_count = anon_count + 1;
                        anonymous_name(anon_count)
                    },
                };
                let text = extract_definition_text(doc.text, def.span);
                operations.push(
                    (
                        name,
                        ParsedOperation {
                            source_idx: doc.source_idx,
                            text,
                            line: doc.line,
                            column: doc.column,
                        },
                    ),
                );
                proof {
                    assert(positions(dv, DefinitionKind::Operation, i + 1) == ops_before.push(i as int));
                    assert(positions(dv, DefinitionKind::Fragment, i + 1) == frs_before);
                }
            },
            DefinitionKind::Fragment => {
                let name = match &def.name {
                    Some(n) => n.clone(),
                    None => String::new(),
                };
                let text = extract_definition_text(doc.text, def.span);
                fragments.push(
                    (
                        name,
                        ParsedFragment {
                            source_idx: doc.source_idx,
                            text,
                            line: doc.line,
                            column: doc.column,
                        },
                    ),
                );
                proof {
                    assert(positions(dv, DefinitionKind::Fragment, i + 1) == frs_before.push(i as int));
                    assert(positions(dv, DefinitionKind::Operation, i + 1) == ops_before);
                }
            },
            DefinitionKind::Other => {
                proof {
                    assert(positions(dv, DefinitionKind::Fragment, i + 1) == frs_before);
                    assert(positions(dv, DefinitionKind::Operation, i + 1) == ops_before);
                }
            },
        }
        i = i + 1;
    }
    proof {
        assert(dv.len() == defs@.len());
    }
    ParseResult::Success { operations, fragments }
}

// ── Merging ────────────────────────────────────────────────────────────────

/// Result of collecting all documents.
#[derive(Debug, Clone)]
pub struct CollectedDocuments<'a> {
    /// Operations by name, in the order they were first found
    pub operations: Vec<(String, ParsedOperation<'a>)>,
    /// Fragments by name, in the order they were first found
    pub fragments: Vec<(String, ParsedFragment<'a>)>,
    /// Warnings encountered during collection (non-fatal)
    pub warnings: Vec<String>,
}

/// Whether an entry of the name is present.
pub open spec fn has_name<T>(m: Seq<(String, T)>, n: Seq<char>) -> bool {
    exists|k: int| 0 <= k < m.len() && #[trigger] m[k].0@ == n
}

/// The warning for a duplicate definition.
pub open spec fn duplicate_text(kind: Seq<char>, name: Seq<char>) -> Seq<char> {
    "Duplicate "@ + kind + " '"@ + name + "' (skipped)"@
}

/// Adds entries by name: an entry whose name is present is reported and
/// dropped.
pub open spec fn add_named<T>(
    m: Seq<(String, T)>,
    w: Seq<Seq<char>>,
    items: Seq<(String, T)>,
    kind: Seq<char>,
) -> (Seq<(String, T)>, Seq<Seq<char>>)
    decreases items.len(),
{
    if items.len() == 0 {
        (m, w)
    } else {
        let (m1, w1) = add_named(m, w, items.drop_last(), kind);
        let it = items.last();
        if has_name(m1, it.0@) {
            (m1, w1.push(duplicate_text(kind, it.0@)))
        } else {
            (m1.push(it), w1)
        }
    }
}

/// The operations, fragments and warnings collected from parse results, in
/// order.
pub open spec fn merge_all<'a>(rs: Seq<ParseResult<'a>>) -> (
    Seq<(String, ParsedOperation<'a>)>,
    Seq<(String, ParsedFragment<'a>)>,
    Seq<Seq<char>>,
)
    decreases rs.len(),
{
    if rs.len() == 0 {
        (Seq::empty(), Seq::empty(), Seq::empty())
    } else {
        let (o, f, w) = merge_all(rs.drop_last());
        match rs.last() {
            ParseResult::Success { operations, fragments } => {
                let (o2, w2) = add_named(o, w, operations@, "operation"@);
                let (f2, w3) = add_named(f, w2, fragments@, "fragment"@);
                (o2, f2, w3)
            },
            ParseResult::Error(msg) => (o, f, w.push(msg@)),
        }
    }
}

pub open spec fn text_views(v: Seq<String>) -> Seq<Seq<char>> {
    v.map_values(|s: String| s@)
}

fn find_name<T>(m: &Vec<(String, T)>, n: &str) -> (r: bool)
    ensures
        r == has_name(m@, n@),
{
    let mut k: usize = 0;
    while k < m.len()
        invariant
            k <= m@.len(),
            forall|j: int| 0 <= j < k ==> #[trigger] m@[j].0@ != n@,
        decreases m@.len() - k,
    {
        if crate::text::str_eq(m[k].0.as_str(), n) {
            return true;
        }
        k = k + 1;
    }
    false
}

fn duplicate_warning(kind: &str, name: &str) -> (r: String)
    ensures
        r@ == duplicate_text(kind@, name@),
{
    let mut w = to_owned_string("Duplicate ");
    push_str(&mut w, kind);
    push_str(&mut w, " '");
    push_str(&mut w, name);
    push_str(&mut w, "' (skipped)");
    proof {
        assert(w@ =~= duplicate_text(kind@, name@));
    }
    w
}

fn add_entries<T: Copy>(m: &mut Vec<(String, T)>, w: &mut Vec<String>, items: &Vec<(String, T)>, kind: &str)
    ensures
        (final(m)@, text_views(final(w)@)) == add_named(old(m)@, text_views(old(w)@), items@, kind@),
{
    let ghost m0 = m@;
    let ghost w0 = text_views(w@);
    let mut i: usize = 0;
    while i < items.len()
        invariant
            i <= items@.len(),
            (m@, text_views(w@)) == add_named(m0, w0, items@.subrange(0, i as int), kind@),
        decreases items@.len() - i,
    {
        let ghost prefix = items@.subrange(0, i + 1);
        proof {
            assert(prefix.drop_last() =~= items@.subrange(0, i as int));
        }
        let name = items[i].0.as_str();
        if find_name(m, name) {
            w.push(duplicate_warning(kind, name));
            proof {
                assert(text_views(w@) =~= text_views(w@.drop_last()).push(duplicate_text(kind@, name@)));
            }
        } else {
            m.push((items[i].0.clone(), items[i].1));
            proof {
                assert(m@.last() == items@[i as int]);
                assert(m@ =~= m@.drop_last().push(prefix.last()));
            }
        }
        i = i + 1;
    }
    proof {
        assert(items@.subrange(0, i as int) =~= items@);
    }
}

/// Merges parse results in order: the first operation or fragment of a name
/// is kept, later ones are reported as duplicates, and failed parses are
/// reported as they are.
pub fn merge_parse_results<'a>(results: &Vec<ParseResult<'a>>) -> (r: CollectedDocuments<'a>)
    ensures
        (r.operations@, r.fragments@, text_views(r.warnings@)) == merge_all(results@),
{
    let mut operations: Vec<(String, ParsedOperation<'a>)> = Vec::new();
    let mut fragments: Vec<(String, ParsedFragment<'a>)> = Vec::new();
    let mut warnings: Vec<String> = Vec::new();
    let mut i: usize = 0;
    proof {
        assert(text_views(warnings@) =~= Seq::<Seq<char>>::empty());
    }
    while i < results.len()
        invariant
            i <= results@.len(),
            (operations@, fragments@, text_views(warnings@)) == merge_all(results@.subrange(0, i as int)),
        decreases results@.len() - i,
    {
        let ghost prefix = results@.subrange(0, i + 1);
        proof {
            assert(prefix.drop_last() =~= results@.subrange(0, i as int));
        }
        match &results[i] {
            ParseResult::Success { operations: ops, fragments: frs } => {
                add_entries(&mut operations, &mut warnings, ops, "operation");
                add_entries(&mut fragments, &mut warnings, frs, "fragment");
            },
            ParseResult::Error(msg) => {
                warnings.push(msg.clone());
                proof {
                    assert(text_views(warnings@) =~= text_views(warnings@.drop_last()).push(msg@));
                }
            },
        }
        i = i + 1;
    }
    proof {
        assert(results@.subrange(0, i as int) =~= results@);
    }
    CollectedDocuments { operations, fragments, warnings }
}

/// Whether the names of the entries are pairwise distinct.
pub open spec fn distinct_names<T>(m: Seq<(String, T)>) -> bool {
    forall|j: int, k: int| 0 <= j < k < m.len() ==> m[j].0@ != m[k].0@
}

proof fn lemma_add_named_distinct<T>(m: Seq<(String, T)>, w: Seq<Seq<char>>, items: Seq<(String, T)>, kind: Seq<char>)
    requires
        distinct_names(m),
    ensures
        distinct_names(add_named(m, w, items, kind).0),
    decreases items.len(),
{
    if items.len() > 0 {
        lemma_add_named_distinct(m, w, items.drop_last(), kind);
        let (m1, w1) = add_named(m, w, items.drop_last(), kind);
        let it = items.last();
        if !has_name(m1, it.0@) {
            let m2 = m1.push(it);
            assert forall|j: int, k: int| 0 <= j < k < m2.len() implies m2[j].0@ != m2[k].0@ by {
                if k == m2.len() - 1 {
                    assert(m2[j] == m1[j]);
                }
            }
        }
    }
}

/// Collection never keeps two operations, or two fragments, of one name.
pub proof fn law_collected_names_distinct<'a>(rs: Seq<ParseResult<'a>>)
    ensures
        distinct_names(merge_all(rs).0),
        distinct_names(merge_all(rs).1),
    decreases rs.len(),
{
    if rs.len() > 0 {
        law_collected_names_distinct(rs.drop_last());
        let (o, f, w) = merge_all(rs.drop_last());
        match rs.last() {
            ParseResult::Success { operations, fragments } => {
                lemma_add_named_distinct(o, w, operations@, "operation"@);
                let (o2, w2) = add_named(o, w, operations@, "operation"@);
                lemma_add_named_distinct(f, w2, fragments@, "fragment"@);
            },
            ParseResult::Error(_) => {},
        }
    }
}

// ── Collecting ─────────────────────────────────────────────────────────────

/// The documents of a file with the given extension: the whole text of a
/// GraphQL file (at line 1, column 1), the documents extracted from a
/// JavaScript or TypeScript file, and none from any other file.
pub fn documents_in_source<'a>(extension: &str, source: &'a str, config: &ExtractConfig) -> (r: Vec<
    Extracted<'a>,
>)
    requires
        source.spec_bytes().len() < usize::MAX,
    ensures
        match file_type_of(extension@) {
            Some(FileType::GraphQL) => r@.len() == 1 && r@[0].text == source && r@[0].line == 1
                && r@[0].column == 1,
            Some(_) => matches_found(
                r@,
                source.spec_bytes(),
                extract_spec(source.spec_bytes(), config.scan_config()),
            ),
            None => r@.len() == 0,
        },
{
    match get_file_type(extension) {
        Some(FileType::GraphQL) => {
            let mut r: Vec<Extracted<'a>> = Vec::new();
            r.push(Extracted { text: source, line: 1, column: 1 });
            r
        },
        Some(_) => extract(source, config),
        None => Vec::new(),
    }
}

/// Whether `t` is a contiguous part of `s`.
pub open spec fn is_slice_of(t: Seq<u8>, s: Seq<u8>) -> bool {
    exists|a: int, b: int| 0 <= a <= b <= s.len() && #[trigger] s.subrange(a, b) == t
}

/// The documents of one loaded file, read with extension `ext`: the whole
/// text of a GraphQL file (at line 1, column 1), the documents found in a
/// JavaScript or TypeScript file, none for any other file.
pub open spec fn file_documents(idx: int, path: Seq<char>, text: Seq<char>, ext: Seq<char>, cfg: ScanConfig) -> Seq<
    DocView,
> {
    let b = encode_utf8(text);
    match file_type_of(ext) {
        Some(FileType::GraphQL) => seq![(idx, path, text, 1int, 1int)],
        Some(_) => extract_spec(b, cfg).map_values(
            |f: Found| (idx, path, decode_utf8(b.subrange(f.start, f.end)), f.line, f.column),
        ),
        None => Seq::empty(),
    }
}

/// The documents of the first `n` loaded files, in order, each file read
/// with its extension in `exts`.
pub open spec fn documents_of(sources: Seq<(String, String)>, exts: Seq<Seq<char>>, cfg: ScanConfig, n: int) -> Seq<
    DocView,
>
    decreases n,
{
    if n <= 0 {
        Seq::empty()
    } else {
        documents_of(sources, exts, cfg, n - 1) + file_documents(
            n - 1,
            sources[n - 1].0@,
            sources[n - 1].1@,
            exts[n - 1],
            cfg,
        )
    }
}

/// Whether `exts` holds, for each loaded file, the extension that was read
/// from its path: the one `Path::extension` names (or none) wherever the
/// path is portable.
pub open spec fn extensions_read(sources: Seq<(String, String)>, exts: Seq<Seq<char>>) -> bool {
    &&& exts.len() == sources.len()
    &&& forall|i: int|
        0 <= i < sources.len() && portable_path((#[trigger] sources[i]).0@) ==> exts[i] == or_empty(
            extension_of(sources[i].0@),
        )
}

/// The documents of all loaded files, in order.
pub fn extract_documents<'a>(sources: &'a Vec<(String, String)>, config: &ExtractConfig) -> (r: Vec<
    ExtractedDoc<'a>,
>)
    requires
        forall|i: int| 0 <= i < sources@.len() ==> encode_utf8((#[trigger] sources@[i]).1@).len() < usize::MAX,
    ensures
        exists|exts: Seq<Seq<char>>|
            #![trigger documents_of(sources@, exts, config.scan_config(), sources@.len() as int)]
            extensions_read(sources@, exts) && r@.map_values(|d: ExtractedDoc<'a>| d@) == documents_of(
                sources@,
                exts,
                config.scan_config(),
                sources@.len() as int,
            ),
        forall|k: int|
            0 <= k < r@.len() ==> {
                let d = #[trigger] r@[k];
                &&& d.source_idx < sources@.len()
                &&& d.path@ == sources@[d.source_idx as int].0@
                &&& is_slice_of(d.text.spec_bytes(), encode_utf8(sources@[d.source_idx as int].1@))
            },
{
    let ghost cfg = config.scan_config();
    let ghost mut exts: Seq<Seq<char>> = Seq::empty();
    let mut docs: Vec<ExtractedDoc<'a>> = Vec::new();
    let mut idx: usize = 0;
    while idx < sources.len()
        invariant
            idx <= sources@.len(),
            cfg == config.scan_config(),
            exts.len() == idx,
            forall|i: int|
                0 <= i < idx && portable_path((#[trigger] sources@[i]).0@) ==> exts[i] == or_empty(
                    extension_of(sources@[i].0@),
                ),
            docs@.map_values(|d: ExtractedDoc<'a>| d@) == documents_of(sources@, exts, cfg, idx as int),
            forall|i: int| 0 <= i < sources@.len() ==> encode_utf8((#[trigger] sources@[i]).1@).len() < usize::MAX,
            forall|k: int|
                0 <= k < docs@.len() ==> {
                    let d = #[trigger] docs@[k];
                    &&& d.source_idx < sources@.len()
                    &&& d.path@ == sources@[d.source_idx as int].0@
                    &&& is_slice_of(d.text.spec_bytes(), encode_utf8(sources@[d.source_idx as int].1@))
                },
        decreases sources@.len() - idx,
    {
        let path = sources[idx].0.as_str();
        let source = sources[idx].1.as_str();
        let ext = text_or_empty(path_extension(path));
        let found = documents_in_source(ext.as_str(), source, config);
        let ghost before = exts;
        proof {
            exts = exts.push(ext@);
            lemma_documents_of_prefix(sources@, before, exts, cfg, idx as int);
        }
        let ghost fd = file_documents(idx as int, path@, source@, ext@, cfg);
        proof {
            let b = source.spec_bytes();
            match file_type_of(ext@) {
                Some(FileType::GraphQL) => {
                    assert(b.subrange(0, b.len() as int) =~= b);
                    assert(is_slice_of(found@[0].text.spec_bytes(), b));
                },
                Some(_) => {
                    let fs = extract_spec(b, cfg);
                    lemma_extract_spec_bounds(b, cfg);
                    assert forall|k: int| 0 <= k < found@.len() implies is_slice_of(
                        (#[trigger] found@[k]).text.spec_bytes(),
                        b,
                    ) && (idx as int, path@, found@[k].text@, found@[k].line as int, found@[k].column as int) == fd[k] by {
                        assert(found@[k].text.spec_bytes() == b.subrange(fs[k].start, fs[k].end));
                        encode_utf8_decode_utf8(found@[k].text@);
                    }
                },
                None => {},
            }
        }
        let mut j: usize = 0;
        while j < found.len()
            invariant
                idx < sources@.len(),
                path@ == sources@[idx as int].0@,
                source@ == sources@[idx as int].1@,
                j <= found@.len(),
                found@.len() == fd.len(),
                forall|k: int|
                    0 <= k < found@.len() ==> (idx as int, path@, (#[trigger] found@[k]).text@, found@[k].line as int, found@[k].column as int) == fd[k],
                docs@.map_values(|d: ExtractedDoc<'a>| d@) == documents_of(sources@, exts, cfg, idx as int) + fd.take(j as int),
                forall|k: int| 0 <= k < found@.len() ==> is_slice_of((#[trigger] found@[k]).text.spec_bytes(), source.spec_bytes()),
                forall|k: int|
                    0 <= k < docs@.len() ==> {
                        let d = #[trigger] docs@[k];
                        &&& d.source_idx < sources@.len()
                        &&& d.path@ == sources@[d.source_idx as int].0@
                        &&& is_slice_of(d.text.spec_bytes(), encode_utf8(sources@[d.source_idx as int].1@))
                    },
            decreases found@.len() - j,
        {
            let e = found[j];
            let ghost old_view = docs@.map_values(|d: ExtractedDoc<'a>| d@);
            docs.push(ExtractedDoc { source_idx: idx, path, text: e.text, line: e.line, column: e.column });
            proof {
                assert(docs@.map_values(|d: ExtractedDoc<'a>| d@) =~= old_view.push(fd[j as int]));
                assert(fd.take(j + 1) =~= fd.take(j as int).push(fd[j as int]));
            }
            j = j + 1;
        }
        proof {
            assert(fd.take(j as int) =~= fd);
        }
        idx = idx + 1;
    }
    proof {
        assert(extensions_read(sources@, exts));
    }
    docs
}

proof fn lemma_documents_of_prefix(
    sources: Seq<(String, String)>,
    exts: Seq<Seq<char>>,
    more: Seq<Seq<char>>,
    cfg: ScanConfig,
    n: int,
)
    requires
        0 <= n <= exts.len(),
        exts.len() <= more.len(),
        forall|i: int| 0 <= i < exts.len() ==> more[i] == exts[i],
    ensures
        documents_of(sources, more, cfg, n) == documents_of(sources, exts, cfg, n),
    decreases n,
{
    if n > 0 {
        lemma_documents_of_prefix(sources, exts, more, cfg, n - 1);
    }
}

/// Whether an operation's text lies inside the file it names.
pub open spec fn within_sources(source_idx: usize, text: Seq<u8>, sources: Seq<(String, String)>) -> bool {
    source_idx < sources.len() && is_slice_of(text, encode_utf8(sources[source_idx as int].1@))
}

proof fn lemma_slice_trans(t: Seq<u8>, s: Seq<u8>, u: Seq<u8>)
    requires
        is_slice_of(t, s),
        is_slice_of(s, u),
    ensures
        is_slice_of(t, u),
{
    let (a, b) = choose|a: int, b: int| 0 <= a <= b <= s.len() && #[trigger] s.subrange(a, b) == t;
    let (c, d) = choose|c: int, d: int| 0 <= c <= d <= u.len() && #[trigger] u.subrange(c, d) == s;
    assert(u.subrange(c + a, c + b) =~= t);
}

proof fn lemma_definition_is_slice(b: Seq<u8>, span: Option<(usize, usize)>)
    ensures
        is_slice_of(definition_bytes(b, span), b),
{
    assert(b.subrange(0, b.len() as int) =~= b);
    match span {
        Some(sp) => {
            if span_ok(b, sp) {
                assert(b.subrange(sp.0 as int, sp.1 as int) == definition_bytes(b, span));
            }
        },
        None => {},
    }
}

proof fn lemma_add_named_keeps<T>(
    m: Seq<(String, T)>,
    w: Seq<Seq<char>>,
    items: Seq<(String, T)>,
    kind: Seq<char>,
    p: spec_fn(T) -> bool,
)
    requires
        forall|k: int| 0 <= k < m.len() ==> p(#[trigger] m[k].1),
        forall|k: int| 0 <= k < items.len() ==> p(#[trigger] items[k].1),
    ensures
        forall|k: int|
            0 <= k < add_named(m, w, items, kind).0.len() ==> p(#[trigger] add_named(m, w, items, kind).0[k].1),
    decreases items.len(),
{
    if items.len() > 0 {
        let last = items.len() - 1;
        assert forall|k: int| 0 <= k < items.drop_last().len() implies p(#[trigger] items.drop_last()[k].1) by {
            assert(items.drop_last()[k] == items[k]);
        }
        lemma_add_named_keeps(m, w, items.drop_last(), kind, p);
        assert(p(items[last].1));
        let (m1, w1) = add_named(m, w, items.drop_last(), kind);
        let res = add_named(m, w, items, kind).0;
        if !has_name(m1, items.last().0@) {
            assert(res == m1.push(items.last()));
            assert forall|k: int| 0 <= k < res.len() implies p(#[trigger] res[k].1) by {
                if k < m1.len() {
                    assert(res[k] == m1[k]);
                }
            }
        } else {
            assert(res == m1);
        }
    } else {
        assert(add_named(m, w, items, kind).0 == m);
    }
}

/// Every operation and fragment that merging keeps satisfies what every
/// operation and fragment of the results satisfies.
proof fn lemma_merge_keeps<'a>(
    rs: Seq<ParseResult<'a>>,
    po: spec_fn(ParsedOperation<'a>) -> bool,
    pf: spec_fn(ParsedFragment<'a>) -> bool,
)
    requires
        forall|i: int|
            0 <= i < rs.len() ==> match #[trigger] rs[i] {
                ParseResult::Success { operations, fragments } => (forall|k: int|
                    0 <= k < operations@.len() ==> po(#[trigger] operations@[k].1)) && (forall|k: int|
                    0 <= k < fragments@.len() ==> pf(#[trigger] fragments@[k].1)),
                ParseResult::Error(_) => true,
            },
    ensures
        forall|k: int| 0 <= k < merge_all(rs).0.len() ==> po(#[trigger] merge_all(rs).0[k].1),
        forall|k: int| 0 <= k < merge_all(rs).1.len() ==> pf(#[trigger] merge_all(rs).1[k].1),
    decreases rs.len(),
{
    if rs.len() > 0 {
        assert forall|i: int| 0 <= i < rs.drop_last().len() implies match #[trigger] rs.drop_last()[i] {
            ParseResult::Success { operations, fragments } => (forall|k: int|
                0 <= k < operations@.len() ==> po(#[trigger] operations@[k].1)) && (forall|k: int|
                0 <= k < fragments@.len() ==> pf(#[trigger] fragments@[k].1)),
            ParseResult::Error(_) => true,
        } by {
            assert(rs.drop_last()[i] == rs[i]);
        }
        lemma_merge_keeps(rs.drop_last(), po, pf);
        let (o, f, w) = merge_all(rs.drop_last());
        let last = rs.len() - 1;
        assert(rs.last() == rs[last]);
        match rs.last() {
            ParseResult::Success { operations, fragments } => {
                lemma_add_named_keeps(o, w, operations@, "operation"@, po);
                let (o2, w2) = add_named(o, w, operations@, "operation"@);
                lemma_add_named_keeps(f, w2, fragments@, "fragment"@, pf);
            },
            ParseResult::Error(_) => {},
        }
    }
}

/// Whether each of `parsed` is what parsing the document at its place gives.
pub open spec fn parses_all<'a>(parsed: Seq<ParseResult<'a>>, docs: Seq<DocView>) -> bool {
    &&& parsed.len() == docs.len()
    &&& forall|k: int| 0 <= k < docs.len() ==> is_parse_of(#[trigger] parsed[k], docs[k])
}

/// Whether `r` is what collecting the loaded files gives: their documents
/// in order (each file read with the extension found in its path), each
/// parsed, the results merged.
pub open spec fn collection_of<'a>(r: CollectedDocuments<'a>, sources: Seq<(String, String)>, cfg: ScanConfig) -> bool {
    exists|exts: Seq<Seq<char>>, parsed: Seq<ParseResult<'a>>|
        #![trigger documents_of(sources, exts, cfg, sources.len() as int), merge_all(parsed)]
        {
            &&& extensions_read(sources, exts)
            &&& parses_all(parsed, documents_of(sources, exts, cfg, sources.len() as int))
            &&& (r.operations@, r.fragments@, text_views(r.warnings@)) == merge_all(parsed)
        }
}

/// Extracts and parses all GraphQL documents of the loaded files (path and
/// text of each), then keeps the first operation and fragment of each name.
pub fn collect_documents<'a>(sources: &'a Vec<(String, String)>, extract_config: &ExtractConfig) -> (r:
    CollectedDocuments<'a>)
    requires
        forall|i: int| 0 <= i < sources@.len() ==> encode_utf8((#[trigger] sources@[i]).1@).len() < usize::MAX,
    ensures
        collection_of(r, sources@, extract_config.scan_config()),
        distinct_names(r.operations@),
        distinct_names(r.fragments@),
        forall|k: int|
            0 <= k < r.operations@.len() ==> within_sources(
                (#[trigger] r.operations@[k]).1.source_idx,
                r.operations@[k].1.text.spec_bytes(),
                sources@,
            ),
        forall|k: int|
            0 <= k < r.fragments@.len() ==> within_sources(
                (#[trigger] r.fragments@[k]).1.source_idx,
                r.fragments@[k].1.text.spec_bytes(),
                sources@,
            ),
{
    let docs = extract_documents(sources, extract_config);
    let mut parsed: Vec<ParseResult<'a>> = Vec::new();
    let mut i: usize = 0;
    while i < docs.len()
        invariant
            i <= docs@.len(),
            parsed@.len() == i,
            forall|k: int| 0 <= k < i ==> is_parse_of(#[trigger] parsed@[k], docs@[k]@),
        decreases docs@.len() - i,
    {
        parsed.push(parse_document(&docs[i]));
        i = i + 1;
    }
    let r = merge_parse_results(&parsed);
    proof {
        law_collected_names_distinct(parsed@);
        let po = |op: ParsedOperation<'a>| within_sources(op.source_idx, op.text.spec_bytes(), sources@);
        let pf = |fr: ParsedFragment<'a>| within_sources(fr.source_idx, fr.text.spec_bytes(), sources@);
        assert forall|i: int| 0 <= i < parsed@.len() implies match #[trigger] parsed@[i] {
            ParseResult::Success { operations, fragments } => (forall|k: int|
                0 <= k < operations@.len() ==> po(#[trigger] operations@[k].1)) && (forall|k: int|
                0 <= k < fragments@.len() ==> pf(#[trigger] fragments@[k].1)),
            ParseResult::Error(_) => true,
        } by {
            let doc = docs@[i];
            assert(is_parse_of(parsed@[i], doc@));
            match parsed@[i] {
                ParseResult::Success { operations, fragments } => {
                    let defs = graphql_parse(doc.text@, doc.path@)->Ok_0;
                    let ops = positions(defs, DefinitionKind::Operation, defs.len() as int);
                    let frs = positions(defs, DefinitionKind::Fragment, defs.len() as int);
                    assert forall|k: int| 0 <= k < operations@.len() implies po(#[trigger] operations@[k].1) by {
                        let op = operations@[k].1;
                        lemma_definition_is_slice(doc.text.spec_bytes(), defs[ops[k]].2);
                        lemma_slice_trans(op.text.spec_bytes(), doc.text.spec_bytes(), encode_utf8(sources@[doc.source_idx as int].1@));
                    }
                    assert forall|k: int| 0 <= k < fragments@.len() implies pf(#[trigger] fragments@[k].1) by {
                        let fr = fragments@[k].1;
                        lemma_definition_is_slice(doc.text.spec_bytes(), defs[frs[k]].2);
                        lemma_slice_trans(fr.text.spec_bytes(), doc.text.spec_bytes(), encode_utf8(sources@[doc.source_idx as int].1@));
                    }
                },
                ParseResult::Error(_) => {},
            }
        }
        lemma_merge_keeps(parsed@, po, pf);
        let cfg = extract_config.scan_config();
        let exts = choose|exts: Seq<Seq<char>>|
            extensions_read(sources@, exts) && docs@.map_values(|d: ExtractedDoc<'a>| d@) == documents_of(
                sources@,
                exts,
                cfg,
                sources@.len() as int,
            );
        let dv = documents_of(sources@, exts, cfg, sources@.len() as int);
        assert forall|k: int| 0 <= k < dv.len() implies is_parse_of(#[trigger] parsed@[k], dv[k]) by {
            assert(dv[k] == docs@[k]@);
        }
        assert(parses_all(parsed@, dv));
    }
    r
}

} // verus!
