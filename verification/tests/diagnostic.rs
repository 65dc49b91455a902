use gql_codegen_core::schema::validate_schema;
use gql_codegen_core::diagnostic::apollo::{ErrorPlace, ReportedError};
use gql_codegen_core::diagnostic::render::{
    digit_count, render_diagnostic, render_diagnostic_string, render_diagnostics,
    render_diagnostics_string, split_lines, Color,
};
use gql_codegen_core::diagnostic::{
    span_location, Diagnostic, DiagnosticCategory, DiagnosticLocation, Diagnostics,
    RelatedLocation, Severity, DEFAULT_MAX_DIAGNOSTICS,
};

#[test]
fn test_diagnostic_without_snippet() {
    let d = Diagnostic::warning(DiagnosticCategory::Config, "something went wrong");
    let out = render_diagnostic(&d, Color::Never, false);
    assert_eq!(out, "[Warning]: something went wrong\n");
}

#[test]
fn test_diagnostics_display() {
    let ds = Diagnostics(vec![
        Diagnostic::error(DiagnosticCategory::Schema, "first error"),
        Diagnostic::error(DiagnosticCategory::Schema, "second error"),
    ]);
    assert_eq!(ds.to_string(), "first error");
}

#[test]
fn test_diagnostics_has_errors() {
    let mut ds = Diagnostics::new();
    assert!(!ds.has_errors());

    ds.push(Diagnostic::warning(DiagnosticCategory::Config, "warn"));
    assert!(!ds.has_errors());

    ds.push(Diagnostic::error(DiagnosticCategory::Schema, "err"));
    assert!(ds.has_errors());
}

#[test]
fn test_diagnostics_max_cap() {
    let ds = Diagnostics(vec![
        Diagnostic::error(DiagnosticCategory::Schema, "error 1"),
        Diagnostic::error(DiagnosticCategory::Schema, "error 2"),
        Diagnostic::error(DiagnosticCategory::Schema, "error 3"),
        Diagnostic::error(DiagnosticCategory::Schema, "error 4"),
    ]);
    let output = render_diagnostics(&ds, Color::Never, false, 2);
    assert!(output.contains("[Error]: error 1"));
    assert!(output.contains("[Error]: error 2"));
    assert!(!output.contains("[Error]: error 3"));
    assert!(output.contains("... and 2 more"));
}

#[test]
fn test_digit_count() {
    assert_eq!(digit_count(0), 1);
    assert_eq!(digit_count(1), 1);
    assert_eq!(digit_count(9), 1);
    assert_eq!(digit_count(10), 2);
    assert_eq!(digit_count(99), 2);
    assert_eq!(digit_count(100), 3);
}

#[test]
fn diagnostic_snippet_rendering() {
    let src = "{\n    \"key\": value\n}";
    let d = Diagnostic::error(DiagnosticCategory::Config, "expected a string")
        .with_location(DiagnosticLocation {
            file: "config.json".to_string(),
            line: 2,
            column: 5,
            length: None,
        })
        .with_inline_source(src.to_string());
    let out = render_diagnostic_string(&d);
    let expected = "[Error]: expected a string\n\n config.json:2:5\n  1 \u{2502} {\n  2 \u{2502}     \"key\": value\n    \u{2502}     ^\n  3 \u{2502} }\n\n";
    assert_eq!(out, expected);
}

#[test]
fn diagnostic_location_without_source() {
    let d = Diagnostic::internal("boom").with_location(DiagnosticLocation {
        file: "a.graphql".to_string(),
        line: 7,
        column: 3,
        length: Some(4),
    });
    assert_eq!(d.severity, Severity::Internal);
    assert_eq!(d.category, DiagnosticCategory::Generation);
    assert_eq!(render_diagnostic_string(&d), "[Internal Error]: boom\n a.graphql:7:3\n\n");
}

#[test]
fn diagnostic_related_note_and_carets() {
    let mut d = Diagnostic::error(DiagnosticCategory::Document, "duplicate")
        .with_location(DiagnosticLocation {
            file: "q.graphql".to_string(),
            line: 1,
            column: 7,
            length: Some(3),
        })
        .with_inline_source("query Foo { a }".to_string());
    d.related.push(RelatedLocation {
        message: "first defined here".to_string(),
        location: DiagnosticLocation { file: "p.graphql".to_string(), line: 1, column: 1, length: None },
        inline_source: None,
    });
    let out = render_diagnostic_string(&d);
    let expected = "[Error]: duplicate\n\n q.graphql:1:7\n  1 \u{2502} query Foo { a }\n    \u{2502}       ^^^\n\n = note: first defined here\n";
    assert_eq!(out, expected);
}

#[test]
fn diagnostic_colored_header() {
    let d = Diagnostic::warning(DiagnosticCategory::Config, "w");
    let out = render_diagnostic(&d, Color::StderrIsTerminal, true);
    assert_eq!(out, "\x1b[33m\x1b[1m[Warning]: w\x1b[0m\n");
    // Without a terminal, no colors.
    assert_eq!(render_diagnostic(&d, Color::StderrIsTerminal, false), "[Warning]: w\n");
}

#[test]
fn diagnostics_cap_message_singular_and_unlimited() {
    let ds = Diagnostics(vec![
        Diagnostic::error(DiagnosticCategory::Schema, "a"),
        Diagnostic::error(DiagnosticCategory::Schema, "b"),
    ]);
    assert_eq!(
        render_diagnostics_string(&ds, 1),
        "[Error]: a\n... and 1 more (Hint: run with --max-diagnostics=0 to show all)\n\n"
    );
    assert_eq!(render_diagnostics_string(&ds, 0), "[Error]: a\n[Error]: b\n");
    assert_eq!(DEFAULT_MAX_DIAGNOSTICS, 3);
}

#[test]
fn diagnostics_filters_and_extend() {
    let mut ds = Diagnostics::new();
    ds.push(Diagnostic::warning(DiagnosticCategory::Config, "w1"));
    ds.push(Diagnostic::error(DiagnosticCategory::Schema, "e1"));
    let mut other = Diagnostics::new();
    other.push(Diagnostic::internal("i1"));
    other.push(Diagnostic::warning(DiagnosticCategory::Document, "w2"));
    ds.extend(other);
    assert_eq!(ds.len(), 4);
    assert!(!ds.is_empty());
    let warnings: Vec<&str> = ds.warnings().iter().map(|d| d.message.as_str()).collect();
    assert_eq!(warnings, vec!["w1", "w2"]);
    let errors: Vec<&str> = ds.errors().iter().map(|d| d.message.as_str()).collect();
    assert_eq!(errors, vec!["e1", "i1"]);
    assert_eq!(ds.iter().len(), 4);
    assert_eq!(Diagnostics::new().to_string(), "unknown error");
    // A bag has errors exactly when its list of errors is not empty.
    assert_eq!(ds.has_errors(), !ds.errors().is_empty());
}

#[test]
fn diagnostic_span_length() {
    let loc = span_location("f".to_string(), 1, 2, 10, 15);
    assert_eq!(loc.length, Some(5));
    assert_eq!(span_location("f".to_string(), 1, 2, 10, 11).length, None);
    assert_eq!(span_location("f".to_string(), 1, 2, 10, 3).length, None);
}

#[test]
fn diagnostic_lines_like_str_lines() {
    let chars: Vec<char> = "a\r\nb\n\nc\r".chars().collect();
    assert_eq!(split_lines(&chars), vec!["a", "b", "", "c\r"]);
    let chars: Vec<char> = "x\n".chars().collect();
    assert_eq!(split_lines(&chars), vec!["x"]);
}

#[test]
fn diagnostics_from_vec_keeps_order() {
    let ds = Diagnostics::from(vec![
        Diagnostic::warning(DiagnosticCategory::Config, "w"),
        Diagnostic::error(DiagnosticCategory::Schema, "e"),
    ]);
    assert_eq!(ds.len(), 2);
    assert!(ds.has_errors());
    assert_eq!(ds.iter()[0].message, "w");
    assert_eq!(ds.iter()[1].message, "e");
}

#[test]
fn diagnostics_from_reported_errors() {
    let errors = vec![
        ReportedError {
            message: "bad".to_string(),
            place: Some(ErrorPlace {
                file: "a.graphql".to_string(),
                line: 2,
                column: 3,
                start: 10,
                end: 15,
                source: "text".to_string(),
            }),
        },
        ReportedError {
            message: "one byte".to_string(),
            place: Some(ErrorPlace {
                file: "b.graphql".to_string(),
                line: 1,
                column: 1,
                start: 4,
                end: 5,
                source: "more".to_string(),
            }),
        },
        ReportedError { message: "nowhere".to_string(), place: None },
    ];
    let ds = Diagnostics::from_reported(&errors, Severity::Error, DiagnosticCategory::Schema);
    assert_eq!(ds.len(), 3);
    let first = &ds.iter()[0];
    assert_eq!(first.message, "bad");
    assert_eq!(first.severity, Severity::Error);
    assert_eq!(first.category, DiagnosticCategory::Schema);
    let loc = first.location.as_ref().unwrap();
    assert_eq!(loc.file, "a.graphql");
    assert_eq!((loc.line, loc.column, loc.length), (2, 3, Some(5)));
    assert_eq!(first.inline_source.as_deref(), Some("text"));
    assert_eq!(ds.iter()[1].location.as_ref().unwrap().length, None);
    assert!(ds.iter()[2].location.is_none());
    assert!(ds.iter()[2].inline_source.is_none());
}

#[test]
fn diagnostics_from_apollo_schema_errors() {
    let text = "type Query { a: Unknown }";
    let err = apollo_compiler::Schema::parse_and_validate(text, "s.graphql").unwrap_err();
    let ds = Diagnostics::from_apollo(&err.errors, Severity::Error, DiagnosticCategory::Schema);
    assert_eq!(ds.len(), err.errors.len());
    assert!(ds.len() >= 1);
    let d = &ds.iter()[0];
    assert!(d.message.contains("Unknown"));
    assert_eq!(d.category, DiagnosticCategory::Schema);
    let loc = d.location.as_ref().unwrap();
    assert_eq!(loc.file, "s.graphql");
    assert_eq!(loc.line, 1);
    assert_eq!(loc.column, 17);
    assert_eq!(loc.length, Some(7));
    assert_eq!(d.inline_source.as_deref(), Some(text));
}

#[test]
fn schema_validation_reports_unknown_type() {
    let files = vec![
        ("a.graphql".to_string(), "type Query { a: String }".to_string()),
        ("b.graphql".to_string(), "type User { friend: Missing }".to_string()),
    ];
    let ds = validate_schema(&files);
    assert!(ds.has_errors());
    let d = &ds.iter()[0];
    assert_eq!(d.severity, Severity::Error);
    assert_eq!(d.category, DiagnosticCategory::Schema);
    assert!(d.message.contains("Missing"));
    let loc = d.location.as_ref().unwrap();
    assert_eq!(loc.file, "b.graphql");
    assert_eq!(d.inline_source.as_deref(), Some("type User { friend: Missing }"));
}

#[test]
fn schema_validation_accepts_valid_schema() {
    let files = vec![("a.graphql".to_string(), "type Query { a: String }".to_string())];
    assert!(validate_schema(&files).is_empty());
}

#[test]
fn test_diagnostic_with_snippet() {
    let src = "{\n    \"key\": value\n}";
    let d = Diagnostic::error(DiagnosticCategory::Config, "expected a string")
        .with_location(DiagnosticLocation {
            file: "config.json".to_string(),
            line: 2,
            column: 5,
            length: None,
        })
        .with_inline_source(src.to_string());
    let out = render_diagnostic(&d, Color::Never, false);
    assert_eq!(
        out,
        "[Error]: expected a string\n\n config.json:2:5\n  1 │ {\n  2 │     \"key\": value\n    │     ^\n  3 │ }\n\n"
    );
}
