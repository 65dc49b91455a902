use gql_codegen_core::cli::{
    base_dir_from_parent, clear_message, config_error_diagnostic, get_file_type, log_level_for,
    read_action, resolve_base_dir, skip_dir, summary_message, warnings_report, FileType, LogLevel,
    Logger, ReadAction,
};
use gql_codegen_core::diagnostic::render::Color;
use gql_codegen_core::diagnostic::{Diagnostic, DiagnosticCategory};
use gql_codegen_core::generator::{
    render_input_object_definition, render_union_definition, InputField, TsOperationsTypeGenerator,
};
use gql_codegen_core::visitor::JSVisitor;

#[test]
fn cli_file_types() {
    assert_eq!(get_file_type("graphql"), Some(FileType::GraphQL));
    assert_eq!(get_file_type("gql"), Some(FileType::GraphQL));
    assert_eq!(get_file_type("mjs"), Some(FileType::JavaScript));
    assert_eq!(get_file_type("cts"), Some(FileType::TypeScript));
    assert_eq!(get_file_type("rs"), None);
}

#[test]
fn cli_logger_levels() {
    assert_eq!(log_level_for(true, true), LogLevel::Quiet);
    assert_eq!(log_level_for(false, true), LogLevel::Verbose);
    assert_eq!(log_level_for(false, false), LogLevel::Normal);
    let quiet = Logger::new(LogLevel::Quiet);
    assert!(!quiet.shows_success());
    assert!(quiet.shows_error());
    let verbose = Logger::new(LogLevel::Verbose);
    assert!(verbose.shows_success() && verbose.shows_debug() && verbose.shows_file());
    let normal = Logger::new(LogLevel::Normal);
    assert!(normal.shows_success() && !normal.shows_debug());
    assert_eq!(normal.level(), LogLevel::Normal);
}

#[test]
fn cli_base_dir() {
    assert_eq!(resolve_base_dir("config/codegen.json"), "config");
    assert_eq!(resolve_base_dir("codegen.json"), ".");
    assert_eq!(base_dir_from_parent(Some("")), ".");
    assert_eq!(base_dir_from_parent(None), ".");
    assert_eq!(base_dir_from_parent(Some("a/b")), "a/b");
}

#[test]
fn cli_messages() {
    assert_eq!(summary_message(false, 1), "Generated 1 file");
    assert_eq!(summary_message(true, 3), "Would generate 3 files");
    assert_eq!(summary_message(false, 0), "Generated 0 files");
    assert_eq!(clear_message(true), "Cache cleared");
    assert_eq!(clear_message(false), "Cache already clean");
}

#[test]
fn cli_config_error() {
    let d = config_error_diagnostic("codegen.json", "expected value", 2, 4, "{\n  x\n}");
    let loc = d.location.clone().unwrap();
    assert_eq!((loc.file.as_str(), loc.line, loc.column, loc.length), ("codegen.json", 2, 4, None));
    assert_eq!(d.inline_source.as_deref(), Some("{\n  x\n}"));
}

#[test]
fn cli_warnings_report() {
    let ws = vec![
        Diagnostic::warning(DiagnosticCategory::Config, "a"),
        Diagnostic::warning(DiagnosticCategory::Config, "b"),
        Diagnostic::warning(DiagnosticCategory::Config, "c"),
    ];
    let refs: Vec<&Diagnostic> = ws.iter().collect();
    assert_eq!(
        warnings_report(&refs, 2, Color::Never, false),
        "[Warning]: a\n[Warning]: b\n... and 1 more warning (Hint: run with --max-diagnostics=0 to show all)\n"
    );
    assert_eq!(warnings_report(&refs, 0, Color::Never, false), "[Warning]: a\n[Warning]: b\n[Warning]: c\n");
}

#[test]
fn cli_read_actions() {
    match read_action("a/b", None) {
        ReadAction::Skip(w) => assert_eq!(w, vec!["Encountered a file with no extension: \"a/b\"".to_string()]),
        _ => panic!(),
    }
    match read_action("a.md", Some("md")) {
        ReadAction::Skip(w) => {
            assert_eq!(w.len(), 2);
            assert_eq!(w[0], "Encountered a file with an unsupported file extension: \"md\" for file \"a.md\"");
        },
        _ => panic!(),
    }
    assert!(matches!(read_action("a.gql", Some("gql")), ReadAction::ReadGraphQL));
    assert!(matches!(read_action("a.tsx", Some("tsx")), ReadAction::ParseScript));
    assert!(skip_dir(&vec!["a".to_string(), "node_modules".to_string()]));
    assert!(!skip_dir(&vec!["a".to_string()]));
}

#[test]
fn generator_union_and_operations() {
    let members = vec!["Cat".to_string(), "Dog".to_string()];
    assert_eq!(render_union_definition("Pet", &members), "export type Pet = Cat | Dog;\n\n");
    let gen = TsOperationsTypeGenerator;
    let ops = vec![("GetUser".to_string(), "  id: string;".to_string())];
    assert_eq!(gen.generate(&ops), "export type GetUser = {\n  id: string;\n};\n\n");
}

#[test]
fn visitor_tags() {
    let v = JSVisitor::default();
    assert!(v.visit_call_expression("gql"));
    assert!(!v.visit_call_expression("sql"));
    let quasis = vec!["query { a }".to_string()];
    assert_eq!(v.visit_tagged_template_expression("graphql", &quasis, 0), Some("query { a }"));
    assert_eq!(v.visit_tagged_template_expression("css", &quasis, 2), None);
}

#[test]
fn input_object_definition_rendering() {
    let fields = vec![
        InputField { name: "name".to_string(), rendered_type: "string".to_string(), description: None },
        InputField {
            name: "age".to_string(),
            rendered_type: "number".to_string(),
            description: Some("  /** Age */\n".to_string()),
        },
    ];
    let out = render_input_object_definition("UserInput", &Some("/** A user */\n".to_string()), &fields);
    assert_eq!(
        out,
        "/** A user */\nexport type UserInput = {\n  __typename?: 'UserInput';\n  name: string;\n  /** Age */\n  age: number;\n};\n\n"
    );
    let empty = render_input_object_definition("Empty", &None, &Vec::new());
    assert_eq!(empty, "export type Empty = {\n  __typename?: 'Empty';\n};\n\n");
}
