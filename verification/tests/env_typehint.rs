//! The earlier-revision annotation lexer and parser.

use ntro::env::typehint_parser::{Lexer, Parser, TokenKind, TypeHint};

fn tokens(source: &str) -> Vec<(TokenKind, usize, String)> {
    let mut lexer = Lexer::new(source);
    let mut out = Vec::new();
    loop {
        let t = lexer.next_token();
        if t.kind == TokenKind::Eof {
            return out;
        }
        out.push((t.kind, t.start, t.text.to_string()));
    }
}

#[test]
fn env_typehint_parser_lexing_type_hints() {
    assert_eq!(
        tokens("@type string"),
        vec![
            (TokenKind::Keyword, 0, "@type".to_string()),
            (TokenKind::StringType, 6, "string".to_string()),
        ]
    );
    assert_eq!(
        tokens("@type number"),
        vec![
            (TokenKind::Keyword, 0, "@type".to_string()),
            (TokenKind::NumberType, 6, "number".to_string()),
        ]
    );
    assert_eq!(
        tokens("@type boolean"),
        vec![
            (TokenKind::Keyword, 0, "@type".to_string()),
            (TokenKind::BooleanType, 6, "boolean".to_string()),
        ]
    );
    assert_eq!(
        tokens("@type 'qa' | 'dev' | 'prod'"),
        vec![
            (TokenKind::Keyword, 0, "@type".to_string()),
            (TokenKind::StringLiteral, 6, "'qa'".to_string()),
            (TokenKind::Pipe, 11, "|".to_string()),
            (TokenKind::StringLiteral, 13, "'dev'".to_string()),
            (TokenKind::Pipe, 19, "|".to_string()),
            (TokenKind::StringLiteral, 21, "'prod'".to_string()),
        ]
    );
}

#[test]
fn env_pound_is_no_token_here() {
    let ts = tokens("# x");
    assert_eq!(ts[0].0, TokenKind::Illegal);
    assert_eq!(ts[0].2, "#");
}

fn parsed(source: &str) -> Option<TypeHint> {
    Parser::new(source).parse()
}

#[test]
fn env_typehint_parser_parse_type_hints() {
    assert!(matches!(parsed("@type string"), Some(TypeHint::String)));
    assert!(matches!(parsed("@type number"), Some(TypeHint::Number)));
    assert!(matches!(parsed("@type boolean"), Some(TypeHint::Boolean)));

    match parsed("@type 'qa' | 'dev' | 'prod'") {
        Some(TypeHint::Union(vals)) => assert_eq!(vals, vec!["qa", "dev", "prod"]),
        other => panic!("expected a union, got {:?}", other),
    }
    match parsed("@type 'qa' || 'dev' ||| | 'prod' | || 'test'") {
        Some(TypeHint::Union(vals)) => assert_eq!(vals, vec!["qa", "dev", "prod", "test"]),
        other => panic!("expected a union, got {:?}", other),
    }
}

#[test]
fn env_parse_needs_the_keyword_first() {
    assert!(parsed("string").is_none());
    assert!(parsed("# @type string").is_none());
    assert!(parsed("@type").is_none());
}
