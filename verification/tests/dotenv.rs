//! The extractor, the merge and both renderers, end to end on inline
//! documents.

use ntro::dotenv::generate_typescript_types_from_texts;
use ntro::dotenv::parse::{parse_variables, parse_variables_with_type_hints, Variable};
use ntro::dotenv::typehint_parser::TypeHint;
use ntro::dotenv::zod::{generate_zod_schema_from_texts, merge, Metadata, ParseError};

fn union(vals: &[&str]) -> TypeHint {
    TypeHint::Union(vals.iter().map(|v| v.to_string()).collect())
}

#[test]
fn parsing_variables() {
    let keys = parse_variables("FOO=1\n#c\nBAR = 2\n\nBAZ");
    assert_eq!(keys, vec!["FOO", "BAR", "BAZ"]);
}

#[test]
fn parsing_variables_with_type_hints() {
    let source = "# @type string\nFOO=1\nBAR=hello\n# a plain comment\n# @type 'qa' | 'dev'\nMODE=qa\n";
    let vars = parse_variables_with_type_hints(source);
    assert_eq!(vars.len(), 3);

    assert_eq!(vars[0].key, "FOO");
    assert_eq!(vars[0].type_hint.as_ref().unwrap().0, TypeHint::String);
    assert_eq!(vars[0].type_hint.as_ref().unwrap().1, 0);

    assert_eq!(vars[1].key, "BAR");
    assert!(vars[1].type_hint.is_none());

    assert_eq!(vars[2].key, "MODE");
    assert_eq!(vars[2].type_hint.as_ref().unwrap().0, union(&["qa", "dev"]));
    assert_eq!(vars[2].type_hint.as_ref().unwrap().1, 4);
}

#[test]
fn a_malformed_annotation_degrades_to_no_hint() {
    let vars = parse_variables_with_type_hints("# @type {}\nKEY=\n");
    assert_eq!(vars.len(), 1);
    assert_eq!(vars[0].key, "KEY");
    assert!(vars[0].type_hint.is_none());
}

#[test]
fn variable_classification_is_a_key_prefix_predicate() {
    let public = Variable { type_hint: None, key: "NEXT_PUBLIC_API".to_string() };
    let private = Variable { type_hint: None, key: "DATABASE_URL".to_string() };
    assert!(public.is_public());
    assert!(!private.is_public());
}

fn doc(source: &str, path: &str) -> Metadata {
    Metadata::new(source.to_string(), path.to_string())
}

#[test]
fn merge_keeps_one_entry_for_agreeing_hints() {
    let docs = vec![
        (
            parse_variables_with_type_hints("# @type string\nKEY=\n"),
            doc("# @type string\nKEY=\n", "a.env"),
        ),
        (
            parse_variables_with_type_hints("# @type string\nKEY=\n"),
            doc("# @type string\nKEY=\n", "b.env"),
        ),
    ];
    let reg = merge(&docs).unwrap();
    assert_eq!(reg.len(), 1);
    assert_eq!(reg[0].variable.key, "KEY");
    assert_eq!(reg[0].variable.type_hint.as_ref().unwrap().0, TypeHint::String);
}

#[test]
fn merge_keeps_the_concrete_hint_over_no_hint() {
    // hinted first
    let docs = vec![
        (
            parse_variables_with_type_hints("# @type number\nKEY=\n"),
            doc("# @type number\nKEY=\n", "a.env"),
        ),
        (parse_variables_with_type_hints("KEY=\n"), doc("KEY=\n", "b.env")),
    ];
    let reg = merge(&docs).unwrap();
    assert_eq!(reg.len(), 1);
    assert_eq!(reg[0].variable.type_hint.as_ref().unwrap().0, TypeHint::Number);

    // hintless first
    let docs = vec![
        (parse_variables_with_type_hints("KEY=\n"), doc("KEY=\n", "a.env")),
        (
            parse_variables_with_type_hints("# @type number\nKEY=\n"),
            doc("# @type number\nKEY=\n", "b.env"),
        ),
    ];
    let reg = merge(&docs).unwrap();
    assert_eq!(reg.len(), 1);
    assert_eq!(reg[0].variable.type_hint.as_ref().unwrap().0, TypeHint::Number);
}

fn case(hint: &str) -> String {
    format!(
        r#"
# @type {}
KEY=
            "#,
        hint
    )
}

fn generate(sources: &[String]) -> Result<String, ParseError> {
    let sources = sources
        .iter()
        .enumerate()
        .map(|(i, source)| Metadata::new(source.clone(), format!("src/dotenv/.env.test.{}", i)))
        .collect();
    generate_zod_schema_from_texts(&sources)
}

#[test]
fn zod_schema_gen_with_type_conflicts() {
    fn gen_err(sources: &[String]) {
        let err = generate(sources).unwrap_err();
        let ParseError::ConflictingTypes { a, b } = err;
        assert_eq!(a.line, 1);
        assert_eq!(b.line, 1);
        assert_eq!(a.meta.path(), "src/dotenv/.env.test.0");
    }

    gen_err(&[case("string"), case("number")]);
    gen_err(&[case("number"), case("boolean")]);
    gen_err(&[case("string"), case("boolean")]);
    gen_err(&[case("'a' | 'b'"), case("number")]);

    gen_err(&[case("string"), case("boolean"), case("number")]);

    // This is not a conflict
    generate(&[case("string"), case("string")]).unwrap();
}

#[test]
fn conflict_carries_both_hints_and_provenances_in_supply_order() {
    let err = generate(&[case("string"), case("number")]).unwrap_err();
    let ParseError::ConflictingTypes { a, b } = err;
    assert_eq!(a.th, TypeHint::String);
    assert_eq!(b.th, TypeHint::Number);
    assert_eq!(a.meta.path(), "src/dotenv/.env.test.0");
    assert_eq!(b.meta.path(), "src/dotenv/.env.test.1");
}

#[test]
fn conflict_message_cites_both_source_lines() {
    let err = generate(&[case("string"), case("number")]).unwrap_err();
    let expected = "\nsrc/dotenv/.env.test.0\n  2| # @type string\n  3| KEY=\n\nconflicts with:\n\nsrc/dotenv/.env.test.1\n  2| # @type number\n  3| KEY=\n";
    assert_eq!(err.message(), expected);
}

#[test]
fn zod_schema_gen() {
    let sources = vec![doc(
        "# @type number\nNEXT_PUBLIC_API=x\nPORT=8080\n",
        "a.env",
    )];
    let output = generate_zod_schema_from_texts(&sources).unwrap();
    assert!(output.starts_with(
        "\nimport z from \"zod\";\n\nconst clientEnvSchemas = {\n    NEXT_PUBLIC_API: z.coerce.number(),\n}\n\nconst serverEnvSchemas = {\n    ...clientEnvSchemas,\n    PORT: z.string(),\n}\n\n"
    ));
    assert!(output.ends_with(
        "\n\nconst processEnv = {\n   NEXT_PUBLIC_API: process.env.NEXT_PUBLIC_API,\n   PORT: process.env.PORT,\n}\n               "
    ));
    assert!(output.contains("export const clientEnv"));
    assert!(output.contains("export const serverEnv"));
}

#[test]
fn union_hint_renders_an_enumerated_validator() {
    let sources = vec![doc("# @type 'dev' | 'prod'\nMODE=\n", "m.env")];
    let output = generate_zod_schema_from_texts(&sources).unwrap();
    assert!(output.contains("    MODE: z.enum(['dev','prod']),"));

    let vars = parse_variables_with_type_hints("# @type 'dev' | 'prod'\nMODE=\n");
    assert_eq!(vars[0].key, "MODE");
    assert_eq!(vars[0].type_hint.as_ref().unwrap().0, union(&["dev", "prod"]));
}

#[test]
fn declarations_list_every_distinct_key_once_sorted() {
    let texts = vec!["B=2\nA=1\n".to_string(), "C=3\nA=9\n".to_string()];
    let output = generate_typescript_types_from_texts(&texts);
    let expected = "\ndeclare namespace NodeJS {\n    interface ProcessEnv {\n        \n         A?: string\n\n         B?: string\n\n         C?: string\n    }\n}\n               ";
    assert_eq!(output, expected);

    // the order the documents come in changes nothing
    let swapped = vec!["C=3\nA=9\n".to_string(), "B=2\nA=1\n".to_string()];
    assert_eq!(generate_typescript_types_from_texts(&swapped), expected);
}

#[test]
fn the_pipeline_is_deterministic() {
    let texts = vec!["# @type string\nFOO=1\nBAR=2\n".to_string()];
    let first = generate_typescript_types_from_texts(&texts);
    let second = generate_typescript_types_from_texts(&texts);
    assert_eq!(first, second);

    let sources = || vec![doc("# @type string\nFOO=1\nBAR=2\n", "a.env")];
    assert_eq!(
        generate_zod_schema_from_texts(&sources()).unwrap(),
        generate_zod_schema_from_texts(&sources()).unwrap()
    );
}

#[test]
fn conflict_aborts_the_schema_but_not_the_declarations() {
    let a = "# @type string\nKEY=\n";
    let b = "# @type number\nKEY=\n";
    let sources = vec![doc(a, "a.env"), doc(b, "b.env")];
    assert!(generate_zod_schema_from_texts(&sources).is_err());

    let texts = vec![a.to_string(), b.to_string()];
    let decls = generate_typescript_types_from_texts(&texts);
    assert!(decls.contains("KEY?: string"));
}
