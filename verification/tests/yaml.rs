//! The tree renderer and the file-stem conversion.

use ntro::pm::PackageManager;
use ntro::yaml::{
    file_name_to_type_name, generate_typescript_types, introspect_typescript_types,
    to_first_uppercase, YamlValue,
};

#[test]
fn file_name_to_type_name_conversion() {
    assert_eq!(file_name_to_type_name("test"), "Test".to_string());
    assert_eq!(
        file_name_to_type_name("test.config"),
        "TestConfig".to_string()
    );
    assert_eq!(
        file_name_to_type_name("test-config"),
        "TestConfig".to_string()
    );
    assert_eq!(
        file_name_to_type_name("test-config-tee.prod"),
        "TestConfigTeeProd".to_string()
    );
}

#[test]
fn first_uppercase_leaves_non_letters_alone() {
    assert_eq!(to_first_uppercase("test"), "Test");
    assert_eq!(to_first_uppercase("Test"), "Test");
    assert_eq!(to_first_uppercase("1abc"), "1abc");
}

fn sample_mapping() -> YamlValue {
    YamlValue::Mapping(vec![
        (
            YamlValue::String("name".to_string()),
            YamlValue::String("demo".to_string()),
        ),
        (
            YamlValue::String("port".to_string()),
            YamlValue::Number("8080".to_string()),
        ),
        (
            YamlValue::String("debug".to_string()),
            YamlValue::Bool(true),
        ),
        (
            YamlValue::String("tags".to_string()),
            YamlValue::Sequence(vec![
                YamlValue::String("a".to_string()),
                YamlValue::Null,
            ]),
        ),
    ])
}

#[test]
fn introspection_renders_structural_types() {
    let text = introspect_typescript_types(&sample_mapping());
    assert_eq!(
        text,
        "{'name': 'demo','port': 8080,'debug': true,'tags': ['a',null]}"
    );
}

#[test]
fn yaml_introspect_typescript_types_gen() {
    let one = generate_typescript_types("test", &vec![sample_mapping()]);
    assert_eq!(
        one,
        "declare type Test = {'name': 'demo','port': 8080,'debug': true,'tags': ['a',null]}"
    );

    let many = generate_typescript_types(
        "test.multiple",
        &vec![
            YamlValue::Mapping(vec![(
                YamlValue::String("a".to_string()),
                YamlValue::Number("1".to_string()),
            )]),
            YamlValue::Bool(false),
        ],
    );
    assert_eq!(
        many,
        "declare namespace TestMultiple { export type Document0 = {'a': 1};\nexport type Document1 = false;\n export type All = [Document0,Document1] }"
    );
}

#[test]
fn executor_names_per_package_manager() {
    assert_eq!(PackageManager::Pnpm.into_executor_name(), "pnpx");
    assert_eq!(PackageManager::Yarn.into_executor_name(), "yarn");
    assert_eq!(PackageManager::Npm.into_executor_name(), "npx");
}
