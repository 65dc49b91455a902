use gql_codegen_core::config::StringOrArray;
use gql_codegen_core::documents::collect::{
    collect_documents, documents_in_source, extract_definition_text, merge_parse_results,
    parse_document, ExtractedDoc, ParseResult, ParsedOperation,
};
use gql_codegen_core::documents::{is_ignored, join, DocumentError, DocumentGlobs};
use gql_codegen_core::extract::ExtractConfig;

fn patterns(ps: &[&str]) -> StringOrArray {
    StringOrArray::Multiple(ps.iter().map(|s| s.to_string()).collect())
}

#[test]
fn documents_ignored_entries() {
    assert!(is_ignored(".git"));
    assert!(is_ignored("node_modules"));
    assert!(is_ignored("target"));
    assert!(!is_ignored("src"));
    assert!(!is_ignored(""));
}

#[test]
fn documents_globs_include_and_exclude() {
    let globs = DocumentGlobs::new(&patterns(&["src/**/*.tsx", "!src/__generated__/**", "!**/*.test.tsx"]))
        .unwrap()
        .unwrap();
    assert!(globs.selects_file("src/components/App.tsx"));
    assert!(!globs.selects_file("src/components/App.test.tsx"));
    assert!(!globs.selects_file("src/__generated__/types.tsx"));
    assert!(!globs.selects_file("lib/App.tsx"));
    assert!(globs.keeps_entry("src", "src", true));
    assert!(!globs.keeps_entry("src/__generated__/nested", "nested", true));
    assert!(globs.keeps_entry("src/__generated__/nested", "nested", false));
    assert!(!globs.keeps_entry("node_modules", "node_modules", true));
    assert!(!globs.keeps_entry("src/.hidden.tsx", ".hidden.tsx", false));
}

#[test]
fn documents_globs_without_includes() {
    assert!(DocumentGlobs::new(&patterns(&["!a/**"])).unwrap().is_none());
    assert!(DocumentGlobs::new(&patterns(&[])).unwrap().is_none());
}

#[test]
fn documents_globs_invalid_pattern() {
    match DocumentGlobs::new(&patterns(&["src/**", "!a[", "b{"])) {
        Err(DocumentError::InvalidGlob { pattern, .. }) => assert_eq!(pattern, "!a["),
        _ => panic!("expected an invalid glob"),
    }
}

#[test]
fn documents_join() {
    assert_eq!(join(&vec!["a", "b", "c"], ", "), "a, b, c");
    assert_eq!(join(&vec!["a"], ", "), "a");
    assert_eq!(join(&vec![], ", "), "");
}

#[test]
fn documents_in_source_by_extension() {
    let cfg = ExtractConfig::default();
    let g = documents_in_source("graphql", "query { a }", &cfg);
    assert_eq!(g.len(), 1);
    assert_eq!(g[0].text, "query { a }");
    assert_eq!((g[0].line, g[0].column), (1, 1));
    let t = documents_in_source("tsx", "const q = gql`{ b }`;", &cfg);
    assert_eq!(t.len(), 1);
    assert_eq!(t[0].text, "{ b }");
    assert!(documents_in_source("md", "gql`{ c }`", &cfg).is_empty());
}

#[test]
fn documents_definition_text() {
    let text = "query A { a } fragment F on T { b }";
    assert_eq!(extract_definition_text(text, Some((0, 13))), "query A { a }");
    assert_eq!(extract_definition_text(text, None), text);
    assert_eq!(extract_definition_text(text, Some((5, 200))), text);
    assert_eq!(extract_definition_text("é", Some((1, 2))), "é");
}

fn doc<'a>(path: &'a str, text: &'a str) -> ExtractedDoc<'a> {
    ExtractedDoc { source_idx: 0, path, text, line: 3, column: 7 }
}

#[test]
fn documents_parse_operations_and_fragments() {
    let d = doc("a.graphql", "query A { a } { b } fragment F on T { c } { d }");
    match parse_document(&d) {
        ParseResult::Success { operations, fragments } => {
            let names: Vec<&str> = operations.iter().map(|(n, _)| n.as_str()).collect();
            assert_eq!(names, vec!["A", "Anonymous_1", "Anonymous_2"]);
            assert_eq!(operations[0].1.text, "query A { a }");
            assert_eq!(operations[1].1.text, "{ b }");
            assert_eq!((operations[0].1.line, operations[0].1.column), (3, 7));
            assert_eq!(fragments.len(), 1);
            assert_eq!(fragments[0].0, "F");
            assert_eq!(fragments[0].1.text, "fragment F on T { c }");
        },
        ParseResult::Error(e) => panic!("unexpected parse error: {e}"),
    }
}

#[test]
fn documents_parse_error_is_reported() {
    let d = doc("bad.graphql", "query {");
    match parse_document(&d) {
        ParseResult::Error(w) => assert!(w.starts_with("bad.graphql:3: ")),
        ParseResult::Success { .. } => panic!("expected a parse error"),
    }
}

fn op(text: &str) -> ParsedOperation<'_> {
    ParsedOperation { source_idx: 0, text, line: 1, column: 1 }
}

#[test]
fn documents_merge_keeps_first_of_a_name() {
    let results = vec![
        ParseResult::Success { operations: vec![("A".to_string(), op("first"))], fragments: vec![] },
        ParseResult::Error("oops".to_string()),
        ParseResult::Success {
            operations: vec![("A".to_string(), op("second")), ("B".to_string(), op("b"))],
            fragments: vec![],
        },
    ];
    let collected = merge_parse_results(&results);
    let names: Vec<&str> = collected.operations.iter().map(|(n, _)| n.as_str()).collect();
    assert_eq!(names, vec!["A", "B"]);
    assert_eq!(collected.operations[0].1.text, "first");
    assert_eq!(
        collected.warnings,
        vec!["oops".to_string(), "Duplicate operation 'A' (skipped)".to_string()]
    );
}

#[test]
fn documents_collect_from_sources() {
    let sources = vec![
        ("a.graphql".to_string(), "query A { a }".to_string()),
        ("b.tsx".to_string(), "const q = gql`query A { x }`; const f = gql`fragment F on T { y }`;".to_string()),
        ("c.txt".to_string(), "gql`query C { c }`".to_string()),
    ];
    let collected = collect_documents(&sources, &ExtractConfig::default());
    assert_eq!(collected.operations.len(), 1);
    assert_eq!(collected.operations[0].0, "A");
    assert_eq!(collected.operations[0].1.file_path(&sources), "a.graphql");
    assert_eq!(collected.fragments.len(), 1);
    assert_eq!(collected.fragments[0].1.file_path(&sources), "b.tsx");
    assert_eq!(collected.warnings, vec!["Duplicate operation 'A' (skipped)".to_string()]);
}

#[test]
fn walk_root_named_dot_is_kept() {
    let globs = DocumentGlobs::new(&StringOrArray::Single("src/**/*.ts".to_string())).unwrap().unwrap();
    // The walk's own root: empty relative path, whatever its name.
    assert!(globs.keeps_entry("", ".", true));
    // Hidden entries below the root are still skipped.
    assert!(!globs.keeps_entry(".git", ".git", true));
    assert!(!globs.keeps_entry("src/.cache", ".cache", true));
}
