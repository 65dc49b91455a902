use std::borrow::Cow;

use gql_codegen_core::casing::parse_naming_case;
use gql_codegen_core::casing::transforms::{
    to_camel_case, to_capital_case, to_constant_case, to_dot_case, to_header_case, to_no_case,
    to_param_case, to_pascal_case, to_path_case, to_snake_case,
};
use gql_codegen_core::casing::words::split_into_words;
use gql_codegen_core::casing::NamingCase;

fn words(s: &str) -> Vec<String> {
    split_into_words(s).into_iter().map(|w| w.text).collect()
}

#[test]
fn test_split_words() {
    // camelCase
    assert_eq!(words("userId"), vec!["user", "Id"]);
    // PascalCase
    assert_eq!(words("UserProfile"), vec!["User", "Profile"]);
    // snake_case
    assert_eq!(words("user_name"), vec!["user", "name"]);
    // CONSTANT_CASE
    assert_eq!(words("HTTP_STATUS"), vec!["HTTP", "STATUS"]);
}

#[test]
fn casing_test_pascal_case() {
    assert_eq!(to_pascal_case("user_name", true), "UserName");
    assert_eq!(to_pascal_case("HTTP_STATUS", true), "HttpStatus");
    assert_eq!(to_pascal_case("UserProfile", true), "UserProfile");

    assert_eq!(to_pascal_case("user_name", false), "User_Name");
    assert_eq!(to_pascal_case("HTTP_STATUS", false), "Http_Status");
    assert_eq!(to_pascal_case("UserProfile", false), "UserProfile");
}

#[test]
fn casing_test_camel_case() {
    assert_eq!(to_camel_case("user_name", true), "userName");
    assert_eq!(to_camel_case("HTTP_STATUS", true), "httpStatus");

    assert_eq!(to_camel_case("user_name", false), "user_Name");
    assert_eq!(to_camel_case("HTTP_STATUS", false), "http_Status");
}

#[test]
fn casing_test_constant_case() {
    assert_eq!(to_constant_case("userName"), "USER_NAME");
    assert_eq!(to_constant_case("UserProfile"), "USER_PROFILE");
    assert_eq!(to_constant_case("user_name"), "USER_NAME");
}

#[test]
fn casing_test_snake_case() {
    assert_eq!(to_snake_case("userName"), "user_name");
    assert_eq!(to_snake_case("UserProfile"), "user_profile");
    assert_eq!(to_snake_case("HTTP_STATUS"), "http_status");
}

#[test]
fn test_cow_borrowed_for_keep() {
    let input = "SomeTypeName";
    let result = NamingCase::Keep.apply(input, false);
    assert!(matches!(result, Cow::Borrowed(_)));
}

#[test]
fn test_parse_direct_names() {
    assert_eq!(parse_naming_case("pascalCase").unwrap().0, NamingCase::PascalCase);
    assert_eq!(parse_naming_case("camelCase").unwrap().0, NamingCase::CamelCase);
    assert_eq!(parse_naming_case("constantCase").unwrap().0, NamingCase::ConstantCase);
    assert_eq!(parse_naming_case("snakeCase").unwrap().0, NamingCase::SnakeCase);
    assert_eq!(parse_naming_case("keep").unwrap().0, NamingCase::Keep);
    assert_eq!(parse_naming_case("capitalCase").unwrap().0, NamingCase::CapitalCase);
    assert_eq!(parse_naming_case("paramCase").unwrap().0, NamingCase::ParamCase);
    assert_eq!(parse_naming_case("kebabCase").unwrap().0, NamingCase::ParamCase);
}

#[test]
fn test_parse_change_case_all_format() {
    assert_eq!(
        parse_naming_case("change-case-all#pascalCase").unwrap().0,
        NamingCase::PascalCase
    );
    assert_eq!(
        parse_naming_case("change-case-all#constantCase").unwrap().0,
        NamingCase::ConstantCase
    );
    assert_eq!(
        parse_naming_case("change-case-all#snakeCase").unwrap().0,
        NamingCase::SnakeCase
    );
}

#[test]
fn test_parse_arbitrary_module_prefix() {
    assert_eq!(
        parse_naming_case("my-custom-lib#pascalCase").unwrap().0,
        NamingCase::PascalCase
    );
}

#[test]
fn test_parse_deprecated_cases() {
    let (case, warning) = parse_naming_case("spongeCase").unwrap();
    assert_eq!(case, NamingCase::Keep);
    assert!(warning.unwrap().contains("deprecated"));

    let (case, warning) = parse_naming_case("titleCase").unwrap();
    assert_eq!(case, NamingCase::CapitalCase);
    assert!(warning.unwrap().contains("capitalCase"));

    let (case, warning) = parse_naming_case("change-case-all#lowerCaseFirst").unwrap();
    assert_eq!(case, NamingCase::CamelCase);
    assert!(warning.unwrap().contains("camelCase"));
}

#[test]
fn test_parse_unknown_case() {
    let err = parse_naming_case("totallyFakeCase").unwrap_err();
    assert!(err.contains("unknown naming convention 'totallyFakeCase'"));
    assert!(err.contains("Valid options:"));
    assert!(err.contains("pascalCase"));
}

#[test]
fn transforms_test_pascal_case() {
    assert_eq!(to_pascal_case("user_name", true), "UserName");
    assert_eq!(to_pascal_case("HTTP_STATUS", true), "HttpStatus");
    assert_eq!(to_pascal_case("UserProfile", true), "UserProfile");

    assert_eq!(to_pascal_case("user_name", false), "User_Name");
    assert_eq!(to_pascal_case("HTTP_STATUS", false), "Http_Status");
}

#[test]
fn transforms_test_camel_case() {
    assert_eq!(to_camel_case("user_name", true), "userName");
    assert_eq!(to_camel_case("HTTP_STATUS", true), "httpStatus");
    assert_eq!(to_camel_case("UserProfile", true), "userProfile");

    assert_eq!(to_camel_case("user_name", false), "user_Name");
    assert_eq!(to_camel_case("HTTP_STATUS", false), "http_Status");
}

#[test]
fn transforms_test_constant_case() {
    assert_eq!(to_constant_case("userName"), "USER_NAME");
    assert_eq!(to_constant_case("UserProfile"), "USER_PROFILE");
    assert_eq!(to_constant_case("user_name"), "USER_NAME");
}

#[test]
fn transforms_test_snake_case() {
    assert_eq!(to_snake_case("userName"), "user_name");
    assert_eq!(to_snake_case("UserProfile"), "user_profile");
    assert_eq!(to_snake_case("HTTP_STATUS"), "http_status");
}

#[test]
fn test_capital_case() {
    assert_eq!(to_capital_case("userName"), "User Name");
    assert_eq!(to_capital_case("user_name"), "User Name");
}

#[test]
fn test_dot_case() {
    assert_eq!(to_dot_case("userName"), "user.name");
    assert_eq!(to_dot_case("UserProfile"), "user.profile");
}

#[test]
fn test_header_case() {
    assert_eq!(to_header_case("userName"), "User-Name");
    assert_eq!(to_header_case("user_name"), "User-Name");
}

#[test]
fn test_param_case() {
    assert_eq!(to_param_case("userName"), "user-name");
    assert_eq!(to_param_case("UserProfile"), "user-profile");
}

#[test]
fn test_path_case() {
    assert_eq!(to_path_case("userName"), "user/name");
    assert_eq!(to_path_case("UserProfile"), "user/profile");
}

#[test]
fn test_no_case() {
    assert_eq!(to_no_case("userName"), "user name");
    assert_eq!(to_no_case("UserProfile"), "user profile");
}

#[test]
fn test_split_into_words() {
    assert_eq!(words("userId"), vec!["user", "Id"]);
    assert_eq!(words("UserProfile"), vec!["User", "Profile"]);
    assert_eq!(words("user_name"), vec!["user", "name"]);
    assert_eq!(words("HTTP_STATUS"), vec!["HTTP", "STATUS"]);
    assert_eq!(words("XMLParser"), vec!["XMLParser"]); // No split in all-caps
}

#[test]
fn casing_apply_styles() {
    assert_eq!(NamingCase::PascalCase.apply("user_name", true), "UserName");
    assert_eq!(NamingCase::ConstantCase.apply("userName", false), "USER_NAME");
    assert_eq!(NamingCase::Lowercase.apply("UserName", false), "username");
    assert_eq!(NamingCase::Uppercase.apply("UserName", false), "USERNAME");
    assert_eq!(NamingCase::Keep.apply("user_Name", true), "user_Name");
}

#[test]
fn casing_module_prefix_is_ignored() {
    for name in ["pascalCase", "snakeCase", "titleCase", "nope"] {
        let direct = parse_naming_case(name);
        let prefixed = parse_naming_case(&format!("some-lib#{name}"));
        assert_eq!(direct.is_ok(), prefixed.is_ok());
        if let (Ok(a), Ok(b)) = (direct, prefixed) {
            assert_eq!(a.0, b.0);
        }
    }
}

#[test]
fn casing_words_keep_all_but_underscores() {
    let joined: String = words("a_bC_dE").concat();
    assert_eq!(joined, "abCdE");
}

// A naming case in a configuration file is a JSON string, read as
// `parse_naming_case` reads it.
fn case_from_json(json: &str) -> NamingCase {
    let text: String = serde_json::from_str(json).unwrap();
    parse_naming_case(&text).unwrap().0
}

#[test]
fn test_serde_roundtrip() {
    let json = r#""pascalCase""#;
    let case = case_from_json(json);
    assert_eq!(case, NamingCase::PascalCase);
}

#[test]
fn test_serde_change_case_format() {
    let json = r#""change-case-all#constantCase""#;
    let case = case_from_json(json);
    assert_eq!(case, NamingCase::ConstantCase);
}

#[test]
fn test_serde_in_convention() {
    let json = r#"{"typeNames": "change-case-all#snakeCase", "enumValues": "constantCase"}"#;
    let config: serde_json::Value = serde_json::from_str(json).unwrap();
    let type_names = config["typeNames"].as_str().map(|s| parse_naming_case(s).unwrap().0);
    let enum_values = config["enumValues"].as_str().map(|s| parse_naming_case(s).unwrap().0);
    assert_eq!(type_names, Some(NamingCase::SnakeCase));
    assert_eq!(enum_values, Some(NamingCase::ConstantCase));
}

#[test]
fn underscores_are_kept_everywhere_when_not_transformed() {
    assert_eq!(to_pascal_case("user_name_", false), "User_Name_");
    assert_eq!(to_pascal_case("a__b", false), "A__B");
    assert_eq!(to_pascal_case("__typename", false), "__Typename");
    assert_eq!(to_pascal_case("___", false), "___");
    assert_eq!(to_camel_case("__typename_", false), "__typename_");
    assert_eq!(to_pascal_case("user_name_", true), "UserName");
    assert_eq!(to_camel_case("a__b__", true), "aB");
}

#[test]
fn param_case_is_snake_case_with_dashes() {
    for s in ["UserProfile", "HTTP_STATUS", "user__name_", "xmlParser"] {
        assert_eq!(to_param_case(s), to_snake_case(s).replace('_', "-"));
    }
}

#[test]
fn underscore_flag_only_removes_underscores() {
    for s in ["user_name_", "__typename", "HTTP_STATUS", "a__b", "UserProfile"] {
        let kept = to_pascal_case(s, false);
        let removed = to_pascal_case(s, true);
        assert_eq!(removed, kept.replace('_', ""));
        assert!(!removed.contains('_'));
    }
}
