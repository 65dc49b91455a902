use gql_codegen_core::cli::path_parser::{expand_path, expand_path_parts, replace_all, OperationType};

#[test]
fn test_filepath() {
    let input_path = "./${filepath}/__generated__/types.ts";
    let current_path = "src/components/TestComponent.tsx";
    let operation_name = "MyQuery";
    let operation_type = OperationType::Query;

    let new_path = expand_path(input_path, current_path, operation_name, operation_type);

    assert_eq!(new_path, "./src/components/__generated__/types.ts");
}

#[test]
fn test_filename() {
    let input_path = "./__generated__/${filename}.graphql.ts";
    let current_path = "src/components/TestComponent.tsx";
    let operation_name = "MyQuery";
    let operation_type = OperationType::Query;

    let new_path = expand_path(input_path, current_path, operation_name, operation_type);

    assert_eq!(new_path, "./__generated__/TestComponent.graphql.ts");
}

#[test]
fn test_operation_name() {
    let input_path = "./generated/${operation_name}.ts";
    let current_path = "src/queries/user.graphql";
    let operation_name = "GetUserProfile";
    let operation_type = OperationType::Query;

    let new_path = expand_path(input_path, current_path, operation_name, operation_type);

    assert_eq!(new_path, "./generated/GetUserProfile.ts");
}

#[test]
fn test_operation_type_query() {
    let input_path = "./${operation_type}s/generated.ts";
    let current_path = "src/test.graphql";
    let operation_name = "TestQuery";
    let operation_type = OperationType::Query;

    let new_path = expand_path(input_path, current_path, operation_name, operation_type);

    assert_eq!(new_path, "./querys/generated.ts");
}

#[test]
fn test_operation_type_mutation() {
    let input_path = "./${operation_type}s/generated.ts";
    let current_path = "src/test.graphql";
    let operation_name = "CreateUser";
    let operation_type = OperationType::Mutation;

    let new_path = expand_path(input_path, current_path, operation_name, operation_type);

    assert_eq!(new_path, "./mutations/generated.ts");
}

#[test]
fn test_operation_type_subscription() {
    let input_path = "./${operation_type}s/generated.ts";
    let current_path = "src/test.graphql";
    let operation_name = "MessageAdded";
    let operation_type = OperationType::Subscription;

    let new_path = expand_path(input_path, current_path, operation_name, operation_type);

    assert_eq!(new_path, "./subscriptions/generated.ts");
}

#[test]
fn test_multiple_variables_combined() {
    let input_path = "${filepath}/__generated__/${operation_type}/${filename}_${operation_name}.ts";
    let current_path = "src/components/UserProfile.tsx";
    let operation_name = "GetUserData";
    let operation_type = OperationType::Query;

    let new_path = expand_path(input_path, current_path, operation_name, operation_type);

    assert_eq!(new_path, "src/components/__generated__/query/UserProfile_GetUserData.ts");
}

#[test]
fn test_all_variables_in_path() {
    let input_path = "${filepath}/${operation_type}/${filename}.${operation_name}.generated.ts";
    let current_path = "app/mutations/user.graphql";
    let operation_name = "CreateUserMutation";
    let operation_type = OperationType::Mutation;

    let new_path = expand_path(input_path, current_path, operation_name, operation_type);

    assert_eq!(new_path, "app/mutations/mutation/user.CreateUserMutation.generated.ts");
}

#[test]
fn test_no_variables() {
    let input_path = "./static/generated.ts";
    let current_path = "src/test.graphql";
    let operation_name = "TestQuery";
    let operation_type = OperationType::Query;

    let new_path = expand_path(input_path, current_path, operation_name, operation_type);

    assert_eq!(new_path, "./static/generated.ts");
}

#[test]
fn test_file_without_extension() {
    let input_path = "./${filename}.ts";
    let current_path = "src/queries/user";
    let operation_name = "GetUser";
    let operation_type = OperationType::Query;

    let new_path = expand_path(input_path, current_path, operation_name, operation_type);

    assert_eq!(new_path, "./user.ts");
}

#[test]
fn test_file_at_root() {
    let input_path = "${filepath}/${filename}.generated.ts";
    let current_path = "schema.graphql";
    let operation_name = "RootQuery";
    let operation_type = OperationType::Query;

    let new_path = expand_path(input_path, current_path, operation_name, operation_type);

    // When parent is None, filepath should be empty
    assert_eq!(new_path, "/schema.generated.ts");
}

#[test]
fn test_nested_deep_path() {
    let input_path = "${filepath}/generated/${filename}_${operation_type}.ts";
    let current_path = "src/very/deeply/nested/path/component.tsx";
    let operation_name = "DeepQuery";
    let operation_type = OperationType::Query;

    let new_path = expand_path(input_path, current_path, operation_name, operation_type);

    assert_eq!(new_path, "src/very/deeply/nested/path/generated/component_query.ts");
}

#[test]
fn test_special_characters_in_names() {
    let input_path = "${filename}_${operation_name}.ts";
    let current_path = "src/test-component.tsx";
    let operation_name = "Get_User$Data";
    let operation_type = OperationType::Query;

    let new_path = expand_path(input_path, current_path, operation_name, operation_type);

    assert_eq!(new_path, "test-component_Get_User$Data.ts");
}

#[test]
fn test_empty_operation_name() {
    let input_path = "${operation_name}.ts";
    let current_path = "src/test.graphql";
    let operation_name = "";
    let operation_type = OperationType::Query;

    let new_path = expand_path(input_path, current_path, operation_name, operation_type);

    assert_eq!(new_path, ".ts");
}

#[test]
fn test_absolute_paths() {
    let input_path = "/absolute/${filepath}/${filename}.ts";
    let current_path = "/project/src/components/Header.tsx";
    let operation_name = "HeaderQuery";
    let operation_type = OperationType::Query;

    let new_path = expand_path(input_path, current_path, operation_name, operation_type);

    assert_eq!(new_path, "/absolute//project/src/components/Header.ts");
}

#[test]
fn test_duplicate_variables() {
    let input_path = "${filename}_${filename}_${operation_name}.ts";
    let current_path = "src/test.tsx";
    let operation_name = "DuplicateTest";
    let operation_type = OperationType::Query;

    let new_path = expand_path(input_path, current_path, operation_name, operation_type);

    assert_eq!(new_path, "test_test_DuplicateTest.ts");
}

#[test]
fn path_parser_expand_parts_directly() {
    let r = expand_path_parts(
        "${filepath}/${filename}.${operation_type}.${operation_name}.ts",
        "src",
        "Button",
        "Q",
        OperationType::Subscription,
    );
    assert_eq!(r, "src/Button.subscription.Q.ts");
}

#[test]
fn path_parser_replace_all_non_overlapping() {
    assert_eq!(replace_all("aaa", "aa", "b"), "ba");
    assert_eq!(replace_all("x${a}y${a}", "${a}", ""), "xy");
    assert_eq!(replace_all("none", "${a}", "z"), "none");
}
