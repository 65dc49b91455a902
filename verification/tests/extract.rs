use gql_codegen_core::extract::{extract, extract_owned, ExtractConfig, Extracted};

fn extract_default(source: &str) -> Vec<Extracted<'_>> {
    extract(source, &ExtractConfig::default())
}

#[test]
fn test_gql_tag() {
    let source = r#"const q = gql`query GetUser { user { id } }`;"#;
    let results = extract_default(source);
    assert_eq!(results.len(), 1);
    assert_eq!(results[0].text, "query GetUser { user { id } }");
}

#[test]
fn test_graphql_tag() {
    let source = r#"const q = graphql`query { user }`;"#;
    let results = extract_default(source);
    assert_eq!(results.len(), 1);
    assert!(results[0].text.contains("query { user }"));
}

#[test]
fn test_magic_comment() {
    let source = r#"const q = /* GraphQL */ `query { user }`;"#;
    let results = extract_default(source);
    assert_eq!(results.len(), 1);
    assert!(results[0].text.contains("query { user }"));
}

#[test]
fn test_magic_comment_case_insensitive() {
    let source = r#"const q = /* graphql */ `query { user }`;"#;
    let results = extract_default(source);
    assert_eq!(results.len(), 1);
}

#[test]
fn test_multiple_documents() {
    let source = r#"
        const a = gql`query A { a }`;
        const b = graphql`query B { b }`;
        const c = /* GraphQL */ `query C { c }`;
    "#;
    let results = extract_default(source);
    assert_eq!(results.len(), 3);
}

#[test]
fn test_skip_string_false_positive() {
    let source = r#"
        const s = "gql`not a query`";
        const q = gql`query Real { id }`;
    "#;
    let results = extract_default(source);
    assert_eq!(results.len(), 1);
    assert!(results[0].text.contains("query Real"));
}

#[test]
fn test_skip_single_quote_string() {
    let source = r#"
        const s = 'gql`not a query`';
        const q = gql`query Real { id }`;
    "#;
    let results = extract_default(source);
    assert_eq!(results.len(), 1);
}

#[test]
fn test_skip_line_comment() {
    let source = r#"
        // gql`not a query`
        const q = gql`query Real { id }`;
    "#;
    let results = extract_default(source);
    assert_eq!(results.len(), 1);
    assert!(results[0].text.contains("query Real"));
}

#[test]
fn test_skip_block_comment_non_magic() {
    let source = r#"
        /* gql`not a query` */
        const q = gql`query Real { id }`;
    "#;
    let results = extract_default(source);
    assert_eq!(results.len(), 1);
    assert!(results[0].text.contains("query Real"));
}

#[test]
fn test_untagged_template_literal_skipped() {
    let source = r#"
        const s = `just a string`;
        const q = gql`query Real { id }`;
    "#;
    let results = extract_default(source);
    assert_eq!(results.len(), 1);
}

#[test]
fn test_broken_js_still_extracts() {
    // Invalid JS syntax but GraphQL should still be extracted
    let source = r#"
        import { missing from
        const q = gql`query Valid { id }`;
        const x = {{{ totally broken
    "#;
    let results = extract_default(source);
    assert_eq!(results.len(), 1);
    assert!(results[0].text.contains("query Valid"));
}

#[test]
fn test_no_graphql_early_bail() {
    let source = r#"
        const x = 1;
        const y = "hello";
        function foo() { return 42; }
    "#;
    let results = extract_default(source);
    assert!(results.is_empty());
}

#[test]
fn test_multiline_query() {
    let source = r#"
        const q = gql`
            query GetUser($id: ID!) {
                user(id: $id) {
                    id
                    name
                    email
                }
            }
        `;
    "#;
    let results = extract_default(source);
    assert_eq!(results.len(), 1);
    assert!(results[0].text.contains("query GetUser"));
    assert!(results[0].text.contains("user(id: $id)"));
}

#[test]
fn test_custom_tags() {
    let config = ExtractConfig {
        tags: vec!["sql".into(), "myGql".into()],
        magic_comments: vec!["GraphQL".into()],
    };

    let source = r#"
        const a = sql`SELECT * FROM users`;
        const b = myGql`query { user }`;
        const c = gql`query { ignored }`;
    "#;
    let results = extract(source, &config);
    assert_eq!(results.len(), 2);
}

#[test]
fn test_position_tracking() {
    let source = "const q = gql`query { user }`;";
    let results = extract_default(source);
    assert_eq!(results.len(), 1);
    assert_eq!(results[0].line, 1);
    assert_eq!(results[0].column, 11); // 'gql' starts at column 11
}

#[test]
fn test_whitespace_between_tag_and_backtick() {
    let source = r#"const q = gql   `query { user }`;"#;
    let results = extract_default(source);
    assert_eq!(results.len(), 1);
}

#[test]
fn test_escaped_backtick_in_string() {
    let source = r#"
        const s = "test \` string";
        const q = gql`query { user }`;
    "#;
    let results = extract_default(source);
    assert_eq!(results.len(), 1);
}

#[test]
fn test_gql_in_identifier_not_matched() {
    // "mygql" shouldn't match, only exact "gql"
    let source = r#"const q = mygql`not graphql`;"#;
    let results = extract_default(source);
    assert!(results.is_empty());
}

#[test]
fn test_fragment() {
    let source = r#"
        const f = gql`
            fragment UserFields on User {
                id
                name
            }
        `;
    "#;
    let results = extract_default(source);
    assert_eq!(results.len(), 1);
    assert!(results[0].text.contains("fragment UserFields"));
}

#[test]
fn test_multiple_magic_comments() {
    let config = ExtractConfig {
        tags: vec![],
        magic_comments: vec!["GraphQL".into(), "GQL".into()],
    };

    let source = r#"
        const a = /* GraphQL */ `query A { a }`;
        const b = /* GQL */ `query B { b }`;
        const c = /* SQL */ `SELECT * FROM users`;
    "#;
    let results = extract(source, &config);
    assert_eq!(results.len(), 2);
}

#[test]
fn test_zero_copy_same_memory() {
    let source = "const q = gql`query { user }`;";
    let results = extract_default(source);

    // The extracted text should point into the source text
    let text_ptr = results[0].text.as_ptr();
    let source_ptr = source.as_ptr();

    // text should be within source's memory range
    assert!(text_ptr >= source_ptr);
    assert!((text_ptr as usize) < (source_ptr as usize) + source.len());
}

#[test]
fn test_to_owned() {
    let source = "const q = gql`query { user }`;";
    let results = extract_default(source);
    let owned = results[0].to_owned();

    assert_eq!(owned.text, "query { user }");
    assert_eq!(owned.line, 1);
}

#[test]
fn extract_reports_magic_comment_position() {
    // The column of a magic comment is that of its opening `/*`.
    let source = "let a;\n  const q = /* GraphQL */ `{ a }`;";
    let results = extract_default(source);
    assert_eq!(results.len(), 1);
    assert_eq!(results[0].text, "{ a }");
    assert_eq!(results[0].line, 2);
    assert_eq!(results[0].column, 13);
}

#[test]
fn extract_skips_interpolations_of_untagged_templates() {
    let source = "const s = `a ${ gql`inner` } b`; const q = gql`query { x }`;";
    let results = extract_default(source);
    assert_eq!(results.len(), 1);
    assert_eq!(results[0].text, "query { x }");
}

#[test]
fn extract_unterminated_template_yields_nothing() {
    let source = "const q = gql`query { x }";
    let results = extract_default(source);
    assert!(results.is_empty());
}

#[test]
fn extract_owned_copies_text_and_place() {
    let source = "x\ngql`{ y }`";
    let owned = extract_owned(source, &ExtractConfig::default());
    assert_eq!(owned.len(), 1);
    assert_eq!(owned[0].text, "{ y }");
    assert_eq!(owned[0].line, 2);
    assert_eq!(owned[0].column, 1);
}

#[test]
fn extract_default_config_tags_and_comments() {
    let config = ExtractConfig::default();
    assert_eq!(config.tags, vec!["gql".to_string(), "graphql".to_string()]);
    assert_eq!(config.magic_comments, vec!["GraphQL".to_string()]);
}
