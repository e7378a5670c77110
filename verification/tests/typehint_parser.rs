//! The annotation lexer and parser on the canonical inputs.

use ntro::dotenv::typehint_parser::{Lexer, ParseError, Parser, TokenKind, TypeHint};

fn kinds_and_texts(source: &str) -> Vec<(TokenKind, String)> {
    let mut lexer = Lexer::new(source);
    let mut out = Vec::new();
    loop {
        let t = lexer.next_token();
        if t.kind == TokenKind::Eof {
            return out;
        }
        out.push((t.kind, t.text.to_string()));
    }
}

#[test]
fn typehint_parser_lexing_type_hints() {
    assert_eq!(
        kinds_and_texts("@type string"),
        vec![
            (TokenKind::Keyword, "@type".to_string()),
            (TokenKind::StringType, "string".to_string()),
        ]
    );
    assert_eq!(
        kinds_and_texts("# @type string"),
        vec![
            (TokenKind::Pound, "#".to_string()),
            (TokenKind::Keyword, "@type".to_string()),
            (TokenKind::StringType, "string".to_string()),
        ]
    );
    assert_eq!(
        kinds_and_texts("@type number"),
        vec![
            (TokenKind::Keyword, "@type".to_string()),
            (TokenKind::NumberType, "number".to_string()),
        ]
    );
    assert_eq!(
        kinds_and_texts("# @type number"),
        vec![
            (TokenKind::Pound, "#".to_string()),
            (TokenKind::Keyword, "@type".to_string()),
            (TokenKind::NumberType, "number".to_string()),
        ]
    );
    assert_eq!(
        kinds_and_texts("@type boolean"),
        vec![
            (TokenKind::Keyword, "@type".to_string()),
            (TokenKind::BooleanType, "boolean".to_string()),
        ]
    );
    assert_eq!(
        kinds_and_texts("@type 'qa' | 'dev' | 'prod'"),
        vec![
            (TokenKind::Keyword, "@type".to_string()),
            (TokenKind::StringLiteral, "'qa'".to_string()),
            (TokenKind::Pipe, "|".to_string()),
            (TokenKind::StringLiteral, "'dev'".to_string()),
            (TokenKind::Pipe, "|".to_string()),
            (TokenKind::StringLiteral, "'prod'".to_string()),
        ]
    );
    assert_eq!(
        kinds_and_texts("# @type 'qa' | 'dev' | 'prod'"),
        vec![
            (TokenKind::Pound, "#".to_string()),
            (TokenKind::Keyword, "@type".to_string()),
            (TokenKind::StringLiteral, "'qa'".to_string()),
            (TokenKind::Pipe, "|".to_string()),
            (TokenKind::StringLiteral, "'dev'".to_string()),
            (TokenKind::Pipe, "|".to_string()),
            (TokenKind::StringLiteral, "'prod'".to_string()),
        ]
    );
}

#[test]
fn lexer_end_is_idempotent() {
    let mut lexer = Lexer::new("  ");
    assert_eq!(lexer.next_token().kind, TokenKind::Eof);
    assert_eq!(lexer.next_token().kind, TokenKind::Eof);
}

#[test]
fn lexing_unterminated_literal_is_illegal() {
    let mut lexer = Lexer::new("'abc");
    let t = lexer.next_token();
    assert_eq!(t.kind, TokenKind::Illegal);
    assert_eq!(t.text, "'abc");
}

fn union(vals: &[&str]) -> TypeHint {
    TypeHint::Union(vals.iter().map(|v| v.to_string()).collect())
}

#[test]
fn typehint_parser_parse_type_hints() {
    assert_eq!(Parser::new("@type string").parse().unwrap(), TypeHint::String);
    assert_eq!(Parser::new("# @type string").parse().unwrap(), TypeHint::String);
    assert_eq!(Parser::new("@type number").parse().unwrap(), TypeHint::Number);
    assert_eq!(Parser::new("@type boolean").parse().unwrap(), TypeHint::Boolean);
    assert_eq!(
        Parser::new("@type 'qa' | 'dev' | 'prod'").parse().unwrap(),
        union(&["qa", "dev", "prod"])
    );
    assert_eq!(
        Parser::new("@type 'qa' || 'dev' ||| | 'prod' | || 'test'").parse().unwrap(),
        union(&["qa", "dev", "prod", "test"])
    );
}

#[test]
fn parse_tolerates_doubled_and_trailing_pipes() {
    assert_eq!(Parser::new("@type 'a' || 'b'").parse().unwrap(), union(&["a", "b"]));
    assert_eq!(Parser::new("@type 'a' | 'b' |").parse().unwrap(), union(&["a", "b"]));
    assert_eq!(
        Parser::new("@type 'a' || 'b'").parse().unwrap(),
        Parser::new("@type 'a' | 'b'").parse().unwrap()
    );
}

#[test]
fn parse_errors_name_the_reason() {
    assert!(matches!(
        Parser::new("foo").parse(),
        Err(ParseError::ExpectedToken { expected: TokenKind::Keyword, .. })
    ));
    assert!(matches!(Parser::new("@type").parse(), Err(ParseError::UnexpectedEnd)));
    assert!(matches!(
        Parser::new("@type |").parse(),
        Err(ParseError::IllegalToken { .. })
    ));
}

#[test]
fn hint_equality_is_by_variant_and_ordered_literals() {
    assert_eq!(TypeHint::String, TypeHint::String);
    assert_ne!(TypeHint::String, TypeHint::Number);
    assert_eq!(union(&["a", "b"]), union(&["a", "b"]));
    assert_ne!(union(&["a", "b"]), union(&["b", "a"]));
    assert_ne!(union(&["a"]), union(&["a", "b"]));
}

#[test]
fn hint_render_restores_the_source_form() {
    assert_eq!(TypeHint::String.render(), "string");
    assert_eq!(TypeHint::Number.render(), "number");
    assert_eq!(TypeHint::Boolean.render(), "boolean");
    assert_eq!(union(&["qa", "dev"]).render(), "'qa' | 'dev'");
}
